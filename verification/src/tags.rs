//! Tags: an application names what it inserts, and finds it again by that name.
use vstd::prelude::*;

use crate::decals::DecalRecord;
use crate::handles::{
    DecalId, Handle, LightId, ObjectId, PlanarReflectorId, PostProcessVolumeId,
    ReflectionCaptureId, WaterHitboxId, WaterVolumeId,
};
use crate::lights::LightRecord;
use crate::objects::ObjectRecord;
use crate::planar_reflections::PlanarReflectorRecord;
use crate::post_process::PostProcessVolumeRecord;
use crate::reflections::ReflectionCaptureRecord;
use crate::scene::Scene;
use crate::sparse_set::SparseSet;
use crate::water::{WaterHitboxRecord, WaterVolumeRecord};

verus! {

/// What an application can give a tag to.
pub trait Tagged {
    spec fn spec_tag(&self) -> u64;

    fn tag(&self) -> (tag: u64)
        ensures
            tag == self.spec_tag(),
    ;
}

/// `id` is live and has the tag. Nothing has the tag 0: it stands for no tag.
pub open spec fn bears<H, V: Tagged>(records: Map<H, V>, id: H, tag: u64) -> bool {
    tag != 0 && records.contains_key(id) && records[id].spec_tag() == tag
}

impl<H: Handle, V: Tagged> SparseSet<H, V> {
    /// Something live that has the tag.
    pub fn find_tagged(&self, tag: u64) -> (found: Option<H>)
        requires
            self.wf(),
        ensures
            match found {
                Some(id) => bears(self@, id, tag),
                None => forall|id: H| !#[trigger] bears(self@, id, tag),
            },
    {
        if tag == 0 {
            return None;
        }
        let mut i: usize = 0;
        while i < self.id_by_slot.len()
            invariant
                self.wf(),
                tag != 0,
                0 <= i <= self.spec_len(),
                forall|j: int| 0 <= j < i ==> (#[trigger] self.value_by_slot@[j]).spec_tag() != tag,
            decreases self.spec_len() - i,
        {
            if self.value_by_slot[i].tag() == tag {
                proof {
                    self.lemma_dense(i as int);
                }
                return Some(self.id_by_slot[i]);
            }
            i = i + 1;
        }
        proof {
            assert forall|id: H| !#[trigger] bears(self@, id, tag) by {
                self.lemma_contains(id);
            }
        }
        None
    }
}

impl Tagged for ObjectRecord {
    open spec fn spec_tag(&self) -> u64 {
        self.user_tag
    }

    fn tag(&self) -> (tag: u64) {
        self.user_tag
    }
}

impl Tagged for LightRecord {
    open spec fn spec_tag(&self) -> u64 {
        self.user_tag
    }

    fn tag(&self) -> (tag: u64) {
        self.user_tag
    }
}

impl Tagged for DecalRecord {
    open spec fn spec_tag(&self) -> u64 {
        self.user_tag
    }

    fn tag(&self) -> (tag: u64) {
        self.user_tag
    }
}

impl Tagged for WaterVolumeRecord {
    open spec fn spec_tag(&self) -> u64 {
        self.user_tag
    }

    fn tag(&self) -> (tag: u64) {
        self.user_tag
    }
}

impl Tagged for WaterHitboxRecord {
    open spec fn spec_tag(&self) -> u64 {
        self.user_tag
    }

    fn tag(&self) -> (tag: u64) {
        self.user_tag
    }
}

impl Tagged for PostProcessVolumeRecord {
    open spec fn spec_tag(&self) -> u64 {
        self.user_tag
    }

    fn tag(&self) -> (tag: u64) {
        self.user_tag
    }
}

impl Tagged for ReflectionCaptureRecord {
    open spec fn spec_tag(&self) -> u64 {
        self.user_tag
    }

    fn tag(&self) -> (tag: u64) {
        self.user_tag
    }
}

impl Tagged for PlanarReflectorRecord {
    open spec fn spec_tag(&self) -> u64 {
        self.user_tag
    }

    fn tag(&self) -> (tag: u64) {
        self.user_tag
    }
}

impl Scene {
    /// An object that was inserted with the tag; `None` for the tag 0, and if nothing live
    /// has it.
    pub fn object_by_tag(&self, user_tag: u64) -> (id: Option<ObjectId>)
        requires
            self.wf(),
        ensures
            match id {
                Some(found) => bears(self.objects.records@, found, user_tag),
                None => forall|other: ObjectId|
                    !#[trigger] bears(self.objects.records@, other, user_tag),
            },
    {
        self.objects.records.find_tagged(user_tag)
    }

    /// A light that was inserted with the tag; `None` for the tag 0, and if nothing live
    /// has it.
    pub fn light_by_tag(&self, user_tag: u64) -> (id: Option<LightId>)
        requires
            self.wf(),
        ensures
            match id {
                Some(found) => bears(self.lights.records@, found, user_tag),
                None => forall|other: LightId|
                    !#[trigger] bears(self.lights.records@, other, user_tag),
            },
    {
        self.lights.records.find_tagged(user_tag)
    }

    /// A decal that was inserted with the tag; `None` for the tag 0, and if nothing live
    /// has it.
    pub fn decal_by_tag(&self, user_tag: u64) -> (id: Option<DecalId>)
        requires
            self.wf(),
        ensures
            match id {
                Some(found) => bears(self.decals@, found, user_tag),
                None => forall|other: DecalId|
                    !#[trigger] bears(self.decals@, other, user_tag),
            },
    {
        self.decals.records.find_tagged(user_tag)
    }

    /// A water volume that was inserted with the tag; `None` for the tag 0, and if nothing live
    /// has it.
    pub fn water_volume_by_tag(&self, user_tag: u64) -> (id: Option<WaterVolumeId>)
        requires
            self.wf(),
        ensures
            match id {
                Some(found) => bears(self.water.volumes@, found, user_tag),
                None => forall|other: WaterVolumeId|
                    !#[trigger] bears(self.water.volumes@, other, user_tag),
            },
    {
        self.water.volumes.find_tagged(user_tag)
    }

    /// A water hitbox that was inserted with the tag; `None` for the tag 0, and if nothing live
    /// has it.
    pub fn water_hitbox_by_tag(&self, user_tag: u64) -> (id: Option<WaterHitboxId>)
        requires
            self.wf(),
        ensures
            match id {
                Some(found) => bears(self.water.hitboxes@, found, user_tag),
                None => forall|other: WaterHitboxId|
                    !#[trigger] bears(self.water.hitboxes@, other, user_tag),
            },
    {
        self.water.hitboxes.records.find_tagged(user_tag)
    }

    /// A post-process volume that was inserted with the tag; `None` for the tag 0, and if nothing live
    /// has it.
    pub fn post_process_volume_by_tag(&self, user_tag: u64) -> (id: Option<PostProcessVolumeId>)
        requires
            self.wf(),
        ensures
            match id {
                Some(found) => bears(self.post_process.volumes@, found, user_tag),
                None => forall|other: PostProcessVolumeId|
                    !#[trigger] bears(self.post_process.volumes@, other, user_tag),
            },
    {
        self.post_process.volumes.records.find_tagged(user_tag)
    }

    /// A reflection capture that was inserted with the tag; `None` for the tag 0, and if nothing live
    /// has it.
    pub fn reflection_capture_by_tag(&self, user_tag: u64) -> (id: Option<ReflectionCaptureId>)
        requires
            self.wf(),
        ensures
            match id {
                Some(found) => bears(self.reflections.captures@, found, user_tag),
                None => forall|other: ReflectionCaptureId|
                    !#[trigger] bears(self.reflections.captures@, other, user_tag),
            },
    {
        self.reflections.captures.find_tagged(user_tag)
    }

    /// A planar reflector that was inserted with the tag; `None` for the tag 0, and if nothing live
    /// has it.
    pub fn planar_reflector_by_tag(&self, user_tag: u64) -> (id: Option<PlanarReflectorId>)
        requires
            self.wf(),
        ensures
            match id {
                Some(found) => bears(self.planar_reflectors@, found, user_tag),
                None => forall|other: PlanarReflectorId|
                    !#[trigger] bears(self.planar_reflectors@, other, user_tag),
            },
    {
        self.planar_reflectors.records.find_tagged(user_tag)
    }
}

/// What is inserted with a tag of its own is found by it, and nothing else is.
pub proof fn lemma_newcomer_is_found<H, V: Tagged>(
    before: Map<H, V>,
    after: Map<H, V>,
    id: H,
    record: V,
    other: H,
)
    requires
        after == before.insert(id, record),
        record.spec_tag() != 0,
        forall|known: H| !#[trigger] bears(before, known, record.spec_tag()),
    ensures
        bears(after, other, record.spec_tag()) <==> other == id,
{
    assert(!bears(before, other, record.spec_tag()));
}

/// What is removed is not found any more; whatever else has a tag keeps it.
pub proof fn lemma_removed_is_not_found<H, V: Tagged>(
    before: Map<H, V>,
    after: Map<H, V>,
    id: H,
    other: H,
    tag: u64,
)
    requires
        after == before.remove(id),
    ensures
        bears(after, other, tag) <==> bears(before, other, tag) && other != id,
{
}

} // verus!
