//! Post-process volumes.
//!
//! Any number of volumes may be authored; shaders see those of highest priority.
use vstd::prelude::*;

use crate::actors::SceneActorId;
use crate::errors::{invalid, Result, SceneError};
use crate::float_bits::F32;
use crate::handles::PostProcessVolumeId;
use crate::projected_table::ProjectedTable;
use crate::rows::NewRow;
use crate::scene::Scene;
use crate::selection::{select_post_process_volume_rows, selected_volumes};
use crate::words::same_list;

verus! {

/// A volume row as shaders read it: its priority and its packed settings.
#[derive(Debug)]
pub struct GpuPostProcessVolume {
    pub priority: F32,
    pub settings: Vec<u32>,
}

impl GpuPostProcessVolume {
    /// Whether two rows hold the same encodings.
    pub fn same(&self, other: &GpuPostProcessVolume) -> (same: bool)
        ensures
            same == self.spec_same(*other),
    {
        self.priority.bits == other.priority.bits && same_list(&self.settings, &other.settings)
    }

    pub open spec fn spec_same(&self, other: GpuPostProcessVolume) -> bool {
        self.priority == other.priority && self.settings@ == other.settings@
    }
}

#[derive(Debug)]
pub struct PostProcessVolumeRecord {
    pub row: GpuPostProcessVolume,
    pub user_tag: u64,
}

/// Priority and GPU row of each volume, in compact order.
pub open spec fn volume_candidates(
    records: Map<PostProcessVolumeId, PostProcessVolumeRecord>,
    ids: Seq<PostProcessVolumeId>,
    rows: Seq<u32>,
) -> Seq<(F32, u32)> {
    Seq::new(ids.len(), |i: int| (records[ids[i]].row.priority, rows[i]))
}

pub struct PostProcess {
    pub volumes: ProjectedTable<PostProcessVolumeId, PostProcessVolumeRecord>,
    /// GPU rows that the shader walks, highest priority first.
    pub shader_rows: Vec<u32>,
}

/// The error of a priority that cannot be ordered.
pub open spec fn priority_error() -> SceneError {
    SceneError::InvalidOperation { reason: "post-process volume priority must be finite" }
}

fn validate_post_process_volume_priority(volume: &GpuPostProcessVolume) -> (result: Result<()>)
    ensures
        result == if volume.priority.spec_is_finite() {
            Ok::<(), SceneError>(())
        } else {
            Err(priority_error())
        },
{
    if !volume.priority.is_finite() {
        return Err(
            SceneError::InvalidOperation {
                reason: "post-process volume priority must be finite",
            },
        );
    }
    Ok(())
}

impl PostProcess {
    pub open spec fn candidates(&self) -> Seq<(F32, u32)> {
        volume_candidates(self.volumes@, self.volumes.spec_ids(), self.volumes.spec_rows())
    }

    /// Shaders see exactly the selected volumes.
    pub open spec fn wf(&self) -> bool {
        &&& self.volumes.wf()
        &&& self.shader_rows@ == selected_volumes(self.candidates())
    }

    pub fn new() -> (post_process: Self)
        ensures
            post_process.wf(),
            post_process.volumes.spec_len() == 0,
    {
        let mut post_process = PostProcess {
            volumes: ProjectedTable::new(),
            shader_rows: Vec::new(),
        };
        post_process.rebuild();
        post_process
    }

    fn rebuild(&mut self)
        requires
            old(self).volumes.wf(),
        ensures
            final(self).wf(),
            final(self).volumes == old(self).volumes,
    {
        let mut candidates: Vec<(F32, u32)> = Vec::new();
        let mut i: usize = 0;
        while i < self.volumes.records.id_by_slot.len()
            invariant
                0 <= i <= self.volumes.spec_len(),
                self.volumes.wf(),
                candidates@ =~= self.candidates().take(i as int),
            decreases self.volumes.spec_len() - i,
        {
            proof {
                self.volumes.lemma_dense(i as int);
            }
            candidates.push(
                (
                    self.volumes.records.value_by_slot[i].row.priority,
                    self.volumes.projection.rows.value_by_slot[i],
                ),
            );
            i = i + 1;
        }
        assert(candidates@ =~= self.candidates());
        let (rows, _) = select_post_process_volume_rows(&candidates);
        self.shader_rows = rows;
    }
}

impl Scene {
    /// Inserts a volume without a tag.
    pub fn insert_post_process_volume(&mut self, new: NewRow, volume: GpuPostProcessVolume) -> (result:
        Result<PostProcessVolumeId>)
        requires
            old(self).wf(),
            !old(self).post_process.volumes.occupies(new.entity.index),
            new.entity.index < usize::MAX,
            old(self).post_process.volumes.spec_len() < u32::MAX,
        ensures
            final(self).wf(),
            result == if volume.priority.spec_is_finite() {
                Ok::<_, SceneError>(PostProcessVolumeId(new.entity))
            } else {
                Err(priority_error())
            },
            *final(self) == (Scene { post_process: final(self).post_process, ..*old(self) }),
            if result is Ok {
                old(self).post_process.volumes.inserted(
                    &final(self).post_process.volumes,
                    PostProcessVolumeId(new.entity),
                    new.gpu_row,
                    (PostProcessVolumeRecord { row: volume, user_tag: 0 }),
                )
            } else {
                *final(self) == *old(self)
            },
    {
        self.insert_post_process_volume_with_tag(new, volume, 0)
    }

    /// `after` is `self` with a fresh volume.
    pub open spec fn volume_inserted(
        &self,
        after: &Scene,
        new: NewRow,
        volume: GpuPostProcessVolume,
        user_tag: u64,
        result: Result<PostProcessVolumeId>,
    ) -> bool {
        &&& result == if volume.priority.spec_is_finite() {
            Ok::<_, SceneError>(PostProcessVolumeId(new.entity))
        } else {
            Err(priority_error())
        }
        &&& *after == (Scene { post_process: after.post_process, ..*self })
        &&& if result is Ok {
            self.post_process.volumes.inserted(
                &after.post_process.volumes,
                PostProcessVolumeId(new.entity),
                new.gpu_row,
                (PostProcessVolumeRecord { row: volume, user_tag }),
            )
        } else {
            *after == *self
        }
    }

    /// Inserts a volume. Its priority must be finite.
    pub fn insert_post_process_volume_with_tag(
        &mut self,
        new: NewRow,
        volume: GpuPostProcessVolume,
        user_tag: u64,
    ) -> (result: Result<PostProcessVolumeId>)
        requires
            old(self).wf(),
            !old(self).post_process.volumes.occupies(new.entity.index),
            new.entity.index < usize::MAX,
            old(self).post_process.volumes.spec_len() < u32::MAX,
        ensures
            final(self).wf(),
            old(self).volume_inserted(final(self), new, volume, user_tag, result),
    {
        match validate_post_process_volume_priority(&volume) {
            Err(error) => {
                return Err(error);
            },
            Ok(_) => {},
        }
        let id = PostProcessVolumeId(new.entity);
        self.post_process.volumes.insert(
            id,
            new.gpu_row,
            PostProcessVolumeRecord { row: volume, user_tag },
        );
        self.post_process.rebuild();
        Ok(id)
    }

    /// `after` is `self` without a volume and the actors that belong to it.
    pub open spec fn post_process_volume_removed(&self, after: &Scene, id: PostProcessVolumeId) -> bool {
        &&& *after == (Scene {
            post_process: after.post_process,
            actors: after.actors,
            data: after.data,
            ..*self
        })
        &&& self.post_process.volumes.removed(&after.post_process.volumes, id)
        &&& self.detached(SceneActorId::PostProcessVolume(id), after)
    }

    /// Removes a volume and the actors that belong to it.
    pub fn remove_post_process_volume(&mut self, id: PostProcessVolumeId) -> (result: Result<()>)
        requires
            old(self).wf(),
        ensures
            final(self).wf(),
            result == if old(self).post_process.volumes@.contains_key(id) {
                Ok::<(), SceneError>(())
            } else {
                Err(SceneError::InvalidHandle { resource: "post-process volume" })
            },
            if result is Ok {
                old(self).post_process_volume_removed(final(self), id)
            } else {
                *final(self) == *old(self)
            },
    {
        if !self.post_process.volumes.remove(id) {
            return Err(invalid("post-process volume"));
        }
        self.post_process.rebuild();
        self.detach_actors_for_target(SceneActorId::PostProcessVolume(id));
        Ok(())
    }

    /// `after` is `self` with another volume under `id`.
    pub open spec fn volume_updated(
        &self,
        after: &Scene,
        id: PostProcessVolumeId,
        volume: GpuPostProcessVolume,
        result: Result<()>,
    ) -> bool {
        &&& result == if !self.post_process.volumes@.contains_key(id) {
            Err(SceneError::InvalidHandle { resource: "post-process volume" })
        } else if !volume.priority.spec_is_finite() {
            Err(priority_error())
        } else {
            Ok::<(), SceneError>(())
        }
        &&& *after == (Scene { post_process: after.post_process, ..*self })
        &&& if result is Ok && !self.post_process.volumes@[id].row.spec_same(volume) {
            self.post_process.volumes.replaced(
                &after.post_process.volumes,
                id,
                (PostProcessVolumeRecord {
                    row: volume,
                    user_tag: self.post_process.volumes@[id].user_tag,
                }),
            )
        } else {
            *after == *self
        }
    }

    /// Replaces a volume's row. The handle is checked before the priority is.
    pub fn update_post_process_volume(
        &mut self,
        id: PostProcessVolumeId,
        volume: GpuPostProcessVolume,
    ) -> (result: Result<()>)
        requires
            old(self).wf(),
        ensures
            final(self).wf(),
            old(self).volume_updated(final(self), id, volume, result),
    {
        let (unchanged, reordered, user_tag) = match self.post_process.volumes.get(id) {
            Some(record) => (
                record.row.same(&volume),
                record.row.priority.bits != volume.priority.bits,
                record.user_tag,
            ),
            None => {
                return Err(invalid("post-process volume"));
            },
        };
        match validate_post_process_volume_priority(&volume) {
            Err(error) => {
                return Err(error);
            },
            Ok(_) => {},
        }
        if unchanged {
            return Ok(());
        }
        self.post_process.volumes.set(id, PostProcessVolumeRecord { row: volume, user_tag });
        if reordered {
            self.post_process.rebuild();
        } else {
            assert(self.post_process.candidates() =~= old(self).post_process.candidates());
        }
        Ok(())
    }

    pub fn get_post_process_volume(&self, id: PostProcessVolumeId) -> (volume: Option<
        &GpuPostProcessVolume,
    >)
        requires
            self.wf(),
        ensures
            match volume {
                Some(row) => self.post_process.volumes@.contains_key(id) && *row
                    == self.post_process.volumes@[id].row,
                None => !self.post_process.volumes@.contains_key(id),
            },
    {
        match self.post_process.volumes.get(id) {
            Some(record) => Some(&record.row),
            None => None,
        }
    }

    /// All volumes with their tags, in compact order.
    pub fn iter_post_process_volumes(&self) -> (list: Vec<
        (PostProcessVolumeId, &GpuPostProcessVolume, u64),
    >)
        requires
            self.wf(),
        ensures
            list@.len() == self.post_process.volumes.spec_len(),
            forall|i: int|
                0 <= i < list@.len() ==> (#[trigger] list@[i]).0
                    == self.post_process.volumes.spec_ids()[i] && *list@[i].1
                    == self.post_process.volumes@[list@[i].0].row && list@[i].2
                    == self.post_process.volumes@[list@[i].0].user_tag,
    {
        let mut list: Vec<(PostProcessVolumeId, &GpuPostProcessVolume, u64)> = Vec::new();
        let mut i: usize = 0;
        while i < self.post_process.volumes.records.id_by_slot.len()
            invariant
                0 <= i <= self.post_process.volumes.spec_len(),
                self.post_process.volumes.wf(),
                list@.len() == i,
                forall|j: int|
                    0 <= j < i ==> (#[trigger] list@[j]).0
                        == self.post_process.volumes.spec_ids()[j] && *list@[j].1
                        == self.post_process.volumes@[list@[j].0].row && list@[j].2
                        == self.post_process.volumes@[list@[j].0].user_tag,
            decreases self.post_process.volumes.spec_len() - i,
        {
            proof {
                self.post_process.volumes.lemma_dense(i as int);
            }
            let id: PostProcessVolumeId = self.post_process.volumes.records.id_by_slot[i];
            let record: &PostProcessVolumeRecord =
                &self.post_process.volumes.records.value_by_slot[i];
            list.push((id, &record.row, record.user_tag));
            i = i + 1;
        }
        list
    }

    pub fn post_process_volumes_count(&self) -> (count: u32)
        requires
            self.wf(),
        ensures
            count == self.post_process.volumes.spec_len(),
    {
        self.post_process.volumes.len() as u32
    }
}

} // verus!
