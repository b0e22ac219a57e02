//! Actor identities and the list of retained actors.
//!
//! Retained actors are behaviour that runs once per frame. The scene keeps their
//! identities: which ones run, in which order, and which resource each belongs to.
use vstd::prelude::*;

use crate::handles::{
    DecalId, LightId, MeshId, ObjectId, PostProcessVolumeId, ReflectionCaptureId,
    SceneExtensionEntity, SectionedInstanceId, VirtualMeshId, VirtualObjectId, WaterHitboxId,
    WaterVolumeId,
};

verus! {

/// What inserting an actor gave: the resource it stands for, if any.
#[derive(Clone, Copy, Debug, PartialEq, Eq, Hash, Structural)]
pub enum SceneActorId {
    /// No resource.
    Nothing,
    /// An actor without a resource, named by an application-owned entity.
    Custom(SceneExtensionEntity),
    Decal(DecalId),
    Mesh(MeshId),
    Light(LightId),
    ReflectionCapture(ReflectionCaptureId),
    VirtualMesh(VirtualMeshId),
    VirtualObject(VirtualObjectId),
    Object(ObjectId),
    /// A complete placed sectioned mesh, all sections as one unit.
    SectionedObject(SectionedInstanceId),
    WaterVolume(WaterVolumeId),
    WaterHitbox(WaterHitboxId),
    PostProcessVolume(PostProcessVolumeId),
}

impl SceneActorId {
    pub fn as_custom(self) -> (id: Option<SceneExtensionEntity>)
        ensures
            id == match self {
                SceneActorId::Custom(id) => Some(id),
                _ => None::<SceneExtensionEntity>,
            },
    {
        if let SceneActorId::Custom(id) = self {
            Some(id)
        } else {
            None
        }
    }

    pub fn as_decal(self) -> (id: Option<DecalId>)
        ensures
            id == match self {
                SceneActorId::Decal(id) => Some(id),
                _ => None::<DecalId>,
            },
    {
        if let SceneActorId::Decal(id) = self {
            Some(id)
        } else {
            None
        }
    }

    pub fn as_mesh(self) -> (id: Option<MeshId>)
        ensures
            id == match self {
                SceneActorId::Mesh(id) => Some(id),
                _ => None::<MeshId>,
            },
    {
        if let SceneActorId::Mesh(id) = self {
            Some(id)
        } else {
            None
        }
    }

    pub fn as_light(self) -> (id: Option<LightId>)
        ensures
            id == match self {
                SceneActorId::Light(id) => Some(id),
                _ => None::<LightId>,
            },
    {
        if let SceneActorId::Light(id) = self {
            Some(id)
        } else {
            None
        }
    }

    pub fn as_reflection_capture(self) -> (id: Option<ReflectionCaptureId>)
        ensures
            id == match self {
                SceneActorId::ReflectionCapture(id) => Some(id),
                _ => None::<ReflectionCaptureId>,
            },
    {
        if let SceneActorId::ReflectionCapture(id) = self {
            Some(id)
        } else {
            None
        }
    }

    pub fn as_virtual_mesh(self) -> (id: Option<VirtualMeshId>)
        ensures
            id == match self {
                SceneActorId::VirtualMesh(id) => Some(id),
                _ => None::<VirtualMeshId>,
            },
    {
        if let SceneActorId::VirtualMesh(id) = self {
            Some(id)
        } else {
            None
        }
    }

    pub fn as_virtual_object(self) -> (id: Option<VirtualObjectId>)
        ensures
            id == match self {
                SceneActorId::VirtualObject(id) => Some(id),
                _ => None::<VirtualObjectId>,
            },
    {
        if let SceneActorId::VirtualObject(id) = self {
            Some(id)
        } else {
            None
        }
    }

    pub fn as_object(self) -> (id: Option<ObjectId>)
        ensures
            id == match self {
                SceneActorId::Object(id) => Some(id),
                _ => None::<ObjectId>,
            },
    {
        if let SceneActorId::Object(id) = self {
            Some(id)
        } else {
            None
        }
    }

    pub fn as_sectioned_object(self) -> (id: Option<SectionedInstanceId>)
        ensures
            id == match self {
                SceneActorId::SectionedObject(id) => Some(id),
                _ => None::<SectionedInstanceId>,
            },
    {
        if let SceneActorId::SectionedObject(id) = self {
            Some(id)
        } else {
            None
        }
    }

    pub fn as_water_volume(self) -> (id: Option<WaterVolumeId>)
        ensures
            id == match self {
                SceneActorId::WaterVolume(id) => Some(id),
                _ => None::<WaterVolumeId>,
            },
    {
        if let SceneActorId::WaterVolume(id) = self {
            Some(id)
        } else {
            None
        }
    }

    pub fn as_water_hitbox(self) -> (id: Option<WaterHitboxId>)
        ensures
            id == match self {
                SceneActorId::WaterHitbox(id) => Some(id),
                _ => None::<WaterHitboxId>,
            },
    {
        if let SceneActorId::WaterHitbox(id) = self {
            Some(id)
        } else {
            None
        }
    }
}

/// An actor that runs, with the resource that it belongs to.
#[derive(Clone, Copy, Debug, PartialEq, Eq, Structural)]
pub struct ActorTarget {
    pub id: SceneActorId,
    pub target: SceneActorId,
}

impl ActorTarget {
    /// The actor is `target`, or belongs to it.
    pub open spec fn concerns(self, target: SceneActorId) -> bool {
        self.id == target || self.target == target
    }
}

/// The retained actors.
pub struct Actors {
    /// Identities in the order in which the actors run.
    pub retained: Vec<SceneActorId>,
    /// Registered identities with their resources. An actor whose identity is gone
    /// from here runs no more, even while a frame is being ticked.
    pub targets: Vec<ActorTarget>,
}

/// `id` is registered in `targets`.
pub open spec fn registers(targets: Seq<ActorTarget>, id: SceneActorId) -> bool {
    exists|i: int| 0 <= i < targets.len() && (#[trigger] targets[i]).id == id
}

/// The entries that do not concern `target`, in order.
pub open spec fn without_target(targets: Seq<ActorTarget>, target: SceneActorId) -> Seq<
    ActorTarget,
> {
    targets.filter(|t: ActorTarget| !t.concerns(target))
}

/// The identities of `list` that are registered in `targets`, in order.
pub open spec fn registered_only(list: Seq<SceneActorId>, targets: Seq<ActorTarget>) -> Seq<
    SceneActorId,
> {
    list.filter(|id: SceneActorId| registers(targets, id))
}

impl Actors {
    /// Registered identities are distinct, and so are those that run, all of which are
    /// registered.
    pub open spec fn wf(&self) -> bool {
        &&& forall|i: int, j: int|
            0 <= i < j < self.targets@.len() ==> (#[trigger] self.targets@[i]).id != (
            #[trigger] self.targets@[j]).id
        &&& self.retained@.no_duplicates()
        &&& forall|i: int|
            0 <= i < self.retained@.len() ==> registers(
                self.targets@,
                #[trigger] self.retained@[i],
            )
    }

    pub open spec fn registered(&self, id: SceneActorId) -> bool {
        registers(self.targets@, id)
    }

    /// Some actor is `target` or belongs to it.
    pub open spec fn concerned(&self, target: SceneActorId) -> bool {
        exists|i: int| 0 <= i < self.targets@.len() && (#[trigger] self.targets@[i]).concerns(target)
    }

    /// `after` is what is left when everything that concerns `target` is taken out.
    pub open spec fn detached(&self, target: SceneActorId, after: &Actors) -> bool {
        &&& after.targets@ == without_target(self.targets@, target)
        &&& after.retained@ == if self.concerned(target) {
            registered_only(self.retained@, after.targets@)
        } else {
            self.retained@
        }
    }

    pub fn new() -> (actors: Self)
        ensures
            actors.wf(),
            actors.retained@ == Seq::<SceneActorId>::empty(),
            actors.targets@ == Seq::<ActorTarget>::empty(),
    {
        Actors { retained: Vec::new(), targets: Vec::new() }
    }

    /// Whether `id` is registered.
    pub fn is_registered(&self, id: SceneActorId) -> (found: bool)
        ensures
            found == self.registered(id),
    {
        let mut i: usize = 0;
        while i < self.targets.len()
            invariant
                0 <= i <= self.targets@.len(),
                forall|j: int| 0 <= j < i ==> (#[trigger] self.targets@[j]).id != id,
            decreases self.targets@.len() - i,
        {
            if self.targets[i].id == id {
                return true;
            }
            i = i + 1;
        }
        false
    }

    /// Registers an actor that runs after all others.
    pub fn register(&mut self, id: SceneActorId, target: SceneActorId)
        requires
            old(self).wf(),
            !old(self).registered(id),
        ensures
            final(self).wf(),
            final(self).targets@ == old(self).targets@.push(ActorTarget { id, target }),
            final(self).retained@ == old(self).retained@.push(id),
    {
        self.targets.push(ActorTarget { id, target });
        self.retained.push(id);
        assert forall|i: int, j: int| 0 <= i < j < self.targets@.len() implies (
        #[trigger] self.targets@[i]).id != (#[trigger] self.targets@[j]).id by {
            assert(self.targets@[i] == old(self).targets@[i]);
            if j < old(self).targets@.len() {
                assert(self.targets@[j] == old(self).targets@[j]);
            }
        }
        let ghost before = *old(self);
        assert forall|i: int| 0 <= i < self.retained@.len() implies registers(
            self.targets@,
            #[trigger] self.retained@[i],
        ) by {
            if i < before.retained@.len() {
                assert(before.retained@[i] == self.retained@[i]);
                let j = choose|j: int|
                    0 <= j < before.targets@.len() && (#[trigger] before.targets@[j]).id
                        == before.retained@[i];
                assert(self.targets@[j].id == self.retained@[i]);
            } else {
                assert(self.targets@[before.targets@.len() as int].id == id);
            }
        }
        assert(!before.retained@.contains(id)) by {
            if before.retained@.contains(id) {
                assert(registers(before.targets@, before.retained@[before.retained@.index_of(id)]));
            }
        }
    }

    /// Takes out every actor that is `target` or belongs to it. Returns the
    /// identities that were taken out, in order.
    pub fn detach(&mut self, target: SceneActorId) -> (removed: Vec<SceneActorId>)
        requires
            old(self).wf(),
        ensures
            final(self).wf(),
            old(self).detached(target, final(self)),
            removed@ == old(self).targets@.filter(|t: ActorTarget| t.concerns(target)).map_values(
                |t: ActorTarget| t.id,
            ),
            removed@.len() > 0 <==> old(self).concerned(target),
    {
        let ghost keep = |t: ActorTarget| !t.concerns(target);
        let ghost drop = |t: ActorTarget| t.concerns(target);
        let ghost id_of = |t: ActorTarget| t.id;
        let mut kept: Vec<ActorTarget> = Vec::new();
        let mut removed: Vec<SceneActorId> = Vec::new();
        let mut i: usize = 0;
        while i < self.targets.len()
            invariant
                0 <= i <= self.targets@.len(),
                self.wf(),
                *self == *old(self),
                keep == (|t: ActorTarget| !t.concerns(target)),
                drop == (|t: ActorTarget| t.concerns(target)),
                id_of == (|t: ActorTarget| t.id),
                kept@ == self.targets@.take(i as int).filter(keep),
                removed@ == self.targets@.take(i as int).filter(drop).map_values(id_of),
                removed@.len() > 0 <==> exists|j: int|
                    0 <= j < i && (#[trigger] self.targets@[j]).concerns(target),
                forall|k: int| 0 <= k < kept@.len() ==> registers(
                    self.targets@.take(i as int),
                    (#[trigger] kept@[k]).id,
                ),
                forall|k: int, l: int|
                    0 <= k < l < kept@.len() ==> (#[trigger] kept@[k]).id != (#[trigger] kept@[l]).id,
            decreases self.targets@.len() - i,
        {
            let entry: ActorTarget = self.targets[i];
            let ghost seen = self.targets@.take(i as int);
            let ghost now = self.targets@.take(i + 1);
            let ghost before = kept@;
            proof {
                reveal(Seq::filter);
                assert(now.drop_last() =~= seen);
                assert(now.last() == entry);
            }
            if entry.id == target || entry.target == target {
                removed.push(entry.id);
                proof {
                    assert(self.targets@[i as int].concerns(target));
                    assert(seen.filter(drop).push(entry).map_values(id_of) =~= seen.filter(
                        drop,
                    ).map_values(id_of).push(entry.id));
                }
            } else {
                kept.push(entry);
            }
            proof {
                assert forall|k: int| 0 <= k < kept@.len() implies registers(
                    now,
                    (#[trigger] kept@[k]).id,
                ) by {
                    if k < before.len() {
                        assert(kept@[k] == before[k]);
                        let j = choose|j: int|
                            0 <= j < seen.len() && (#[trigger] seen[j]).id == before[k].id;
                        assert(now[j].id == before[k].id);
                    } else {
                        assert(now[i as int].id == entry.id);
                    }
                }
                assert forall|k: int, l: int| 0 <= k < l < kept@.len() implies (
                #[trigger] kept@[k]).id != (#[trigger] kept@[l]).id by {
                    if l == before.len() {
                        let j = choose|j: int|
                            0 <= j < seen.len() && (#[trigger] seen[j]).id == before[k].id;
                        assert(self.targets@[j].id == before[k].id);
                        assert(self.targets@[i as int] == entry);
                    }
                }
            }
            i = i + 1;
        }
        assert(self.targets@.take(i as int) =~= self.targets@);
        if removed.len() == 0 {
            proof {
                lemma_filter_all(self.targets@, keep);
            }
            return removed;
        }
        self.targets = kept;
        let mut survivors: Vec<SceneActorId> = Vec::new();
        let ghost live = |id: SceneActorId| registers(self.targets@, id);
        let mut k: usize = 0;
        while k < self.retained.len()
            invariant
                0 <= k <= self.retained@.len(),
                self.targets@ == without_target(old(self).targets@, target),
                self.retained@ == old(self).retained@,
                self.retained@.no_duplicates(),
                live == (|id: SceneActorId| registers(self.targets@, id)),
                survivors@ == self.retained@.take(k as int).filter(live),
                survivors@.no_duplicates(),
                forall|j: int|
                    0 <= j < survivors@.len() ==> self.retained@.take(k as int).contains(
                        #[trigger] survivors@[j],
                    ),
            decreases self.retained@.len() - k,
        {
            let id: SceneActorId = self.retained[k];
            let ghost seen = self.retained@.take(k as int);
            let ghost now = self.retained@.take(k + 1);
            let ghost before = survivors@;
            proof {
                reveal(Seq::filter);
                assert(now.drop_last() =~= seen);
                assert(now.last() == id);
            }
            if self.is_registered(id) {
                survivors.push(id);
            }
            proof {
                assert forall|j: int| 0 <= j < survivors@.len() implies now.contains(
                    #[trigger] survivors@[j],
                ) by {
                    if j < before.len() {
                        assert(seen.contains(before[j]));
                        assert(now[seen.index_of(before[j])] == before[j]);
                    } else {
                        assert(now[k as int] == id);
                    }
                }
                assert(!seen.contains(id));
                assert(survivors@.no_duplicates()) by {
                    assert forall|a: int, b: int|
                        0 <= a < survivors@.len() && 0 <= b < survivors@.len() && a != b implies
                        survivors@[a] != survivors@[b] by {
                        if a < before.len() {
                            assert(seen.contains(before[a]));
                        }
                        if b < before.len() {
                            assert(seen.contains(before[b]));
                        }
                    }
                }
            }
            k = k + 1;
        }
        assert(self.retained@.take(k as int) =~= self.retained@);
        self.retained = survivors;
        removed
    }

    /// Starts a frame: hands out the actors to run, in order. Actors that register
    /// during the frame wait for the next one.
    pub fn begin_frame(&mut self) -> (running: Vec<SceneActorId>)
        requires
            old(self).wf(),
        ensures
            final(self).wf(),
            running@ == old(self).retained@,
            final(self).retained@ == Seq::<SceneActorId>::empty(),
            final(self).targets@ == old(self).targets@,
    {
        let mut running: Vec<SceneActorId> = Vec::new();
        let mut i: usize = 0;
        while i < self.retained.len()
            invariant
                0 <= i <= self.retained@.len(),
                running@ =~= self.retained@.take(i as int),
            decreases self.retained@.len() - i,
        {
            running.push(self.retained[i]);
            i = i + 1;
        }
        self.retained.clear();
        running
    }

    /// Ends a frame: of the actors that ran, those that are still registered run
    /// again next frame, before the ones that registered meanwhile.
    pub fn end_frame(&mut self, running: &Vec<SceneActorId>)
        requires
            old(self).wf(),
            running@.no_duplicates(),
            forall|i: int|
                0 <= i < running@.len() && old(self).registered(#[trigger] running@[i]) ==> !old(
                    self,
                ).retained@.contains(running@[i]),
        ensures
            final(self).wf(),
            final(self).targets@ == old(self).targets@,
            final(self).retained@ == registered_only(running@, old(self).targets@) + old(
                self,
            ).retained@,
    {
        let ghost live = |id: SceneActorId| registers(self.targets@, id);
        let ghost later = self.retained@;
        let mut order: Vec<SceneActorId> = Vec::new();
        let mut k: usize = 0;
        while k < running.len()
            invariant
                0 <= k <= running@.len(),
                *self == *old(self),
                running@.no_duplicates(),
                later == self.retained@,
                live == (|id: SceneActorId| registers(self.targets@, id)),
                order@ == running@.take(k as int).filter(live),
                order@.no_duplicates(),
                forall|j: int|
                    0 <= j < order@.len() ==> running@.take(k as int).contains(
                        #[trigger] order@[j],
                    ) && self.registered(order@[j]),
            decreases running@.len() - k,
        {
            let id: SceneActorId = running[k];
            let ghost seen = running@.take(k as int);
            let ghost now = running@.take(k + 1);
            let ghost before = order@;
            proof {
                reveal(Seq::filter);
                assert(now.drop_last() =~= seen);
                assert(now.last() == id);
            }
            if self.is_registered(id) {
                order.push(id);
            }
            proof {
                assert forall|j: int| 0 <= j < order@.len() implies now.contains(
                    #[trigger] order@[j],
                ) && self.registered(order@[j]) by {
                    if j < before.len() {
                        assert(seen.contains(before[j]));
                        assert(now[seen.index_of(before[j])] == before[j]);
                    } else {
                        assert(now[k as int] == id);
                    }
                }
                assert(!seen.contains(id));
                assert(order@.no_duplicates()) by {
                    assert forall|a: int, b: int|
                        0 <= a < order@.len() && 0 <= b < order@.len() && a != b implies order@[a]
                        != order@[b] by {
                        if a < before.len() {
                            assert(seen.contains(before[a]));
                        }
                        if b < before.len() {
                            assert(seen.contains(before[b]));
                        }
                    }
                }
            }
            k = k + 1;
        }
        assert(running@.take(k as int) =~= running@);
        let ghost survivors = order@;
        let mut i: usize = 0;
        while i < self.retained.len()
            invariant
                0 <= i <= self.retained@.len(),
                *self == *old(self),
                later == self.retained@,
                order@ =~= survivors + later.take(i as int),
            decreases self.retained@.len() - i,
        {
            order.push(self.retained[i]);
            i = i + 1;
        }
        assert(later.take(i as int) =~= later);
        proof {
            let all = survivors + later;
            assert(all.no_duplicates()) by {
                assert forall|a: int, b: int|
                    0 <= a < all.len() && 0 <= b < all.len() && a != b implies all[a] != all[b] by {
                    if a < survivors.len() && b >= survivors.len() {
                        assert(running@.contains(survivors[a]));
                        let r = running@.index_of(survivors[a]);
                        assert(running@[r] == survivors[a]);
                        assert(later.contains(later[b - survivors.len()]));
                    }
                    if b < survivors.len() && a >= survivors.len() {
                        assert(running@.contains(survivors[b]));
                        let r = running@.index_of(survivors[b]);
                        assert(running@[r] == survivors[b]);
                        assert(later.contains(later[a - survivors.len()]));
                    }
                }
            }
        }
        self.retained = order;
    }

    /// Takes out every actor.
    pub fn clear(&mut self)
        ensures
            final(self).wf(),
            final(self).retained@ == Seq::<SceneActorId>::empty(),
            final(self).targets@ == Seq::<ActorTarget>::empty(),
    {
        self.retained.clear();
        self.targets.clear();
    }
}

proof fn lemma_filter_all<T>(s: Seq<T>, keep: spec_fn(T) -> bool)
    requires
        forall|i: int| 0 <= i < s.len() ==> keep(#[trigger] s[i]),
    ensures
        s.filter(keep) == s,
    decreases s.len(),
{
    reveal(Seq::filter);
    if s.len() > 0 {
        lemma_filter_all(s.drop_last(), keep);
        assert(s.drop_last().push(s.last()) =~= s);
    }
}

pub proof fn lemma_filter_contains<T>(s: Seq<T>, keep: spec_fn(T) -> bool, x: T)
    ensures
        s.filter(keep).contains(x) <==> s.contains(x) && keep(x),
    decreases s.len(),
{
    reveal(Seq::filter);
    if s.len() > 0 {
        let rest = s.drop_last();
        lemma_filter_contains(rest, keep, x);
        if s.contains(x) {
            let i = s.index_of(x);
            if i < rest.len() {
                assert(rest[i] == x);
            }
        }
        if rest.contains(x) {
            assert(s[rest.index_of(x)] == x);
        }
        let kept = rest.filter(keep);
        if keep(s.last()) {
            assert(s.filter(keep) == kept.push(s.last()));
            if kept.contains(x) {
                assert(kept.push(s.last())[kept.index_of(x)] == x);
            }
            assert(kept.push(s.last())[kept.len() as int] == s.last());
            if kept.push(s.last()).contains(x) {
                let i = kept.push(s.last()).index_of(x);
                if i < kept.len() {
                    assert(kept[i] == x);
                }
            }
        }
    }
}

/// Once a target is detached nothing that concerns it runs or is registered any
/// more, even if a frame is being ticked.
pub proof fn lemma_detached_never_runs(
    before: Actors,
    after: Actors,
    target: SceneActorId,
    entry: ActorTarget,
)
    requires
        before.wf(),
        before.detached(target, &after),
        before.targets@.contains(entry),
        entry.concerns(target),
    ensures
        !after.registered(entry.id),
        !after.retained@.contains(entry.id),
{
    let keep = |t: ActorTarget| !t.concerns(target);
    let i = before.targets@.index_of(entry);
    assert(before.targets@[i].concerns(target));
    if after.registered(entry.id) {
        let k = choose|k: int| 0 <= k < after.targets@.len() && (#[trigger] after.targets@[k]).id
            == entry.id;
        let other = after.targets@[k];
        assert(after.targets@.contains(other));
        lemma_filter_contains(before.targets@, keep, other);
        let j = before.targets@.index_of(other);
        assert(before.targets@[j] == other);
        assert(i == j);
    }
    let live = |id: SceneActorId| registers(after.targets@, id);
    lemma_filter_contains(before.retained@, live, entry.id);
}

/// Actors that no change concerns keep running, in the same order.
pub proof fn lemma_detach_keeps_others(
    before: Actors,
    after: Actors,
    target: SceneActorId,
    entry: ActorTarget,
)
    requires
        before.wf(),
        before.detached(target, &after),
        before.targets@.contains(entry),
        before.retained@.contains(entry.id),
        !entry.concerns(target),
    ensures
        after.targets@.contains(entry),
        after.retained@.contains(entry.id),
{
    let keep = |t: ActorTarget| !t.concerns(target);
    lemma_filter_contains(before.targets@, keep, entry);
    let k = after.targets@.index_of(entry);
    assert(after.targets@[k].id == entry.id);
    let live = |id: SceneActorId| registers(after.targets@, id);
    lemma_filter_contains(before.retained@, live, entry.id);
}

} // verus!
