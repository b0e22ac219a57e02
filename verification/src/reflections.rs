//! Reflection captures: validation, cube layers and the shader's selection.
use vstd::prelude::*;

use crate::actors::SceneActorId;
use crate::errors::{invalid, Result, SceneError};
use crate::float_bits::{from_bits, single, F32, ONE_BITS};
use crate::handles::{Handle, ReflectionCaptureId};
use crate::reflection_projection::{ReflectionProjection, NO_LAYER};
use crate::rows::NewRow;
use crate::scene::Scene;
use crate::selection::{
    capture_pairs, select_resident_reflection_projections, selected_captures,
};
use crate::sparse_set::{swap_removed, SparseSet};
use crate::words::{all_finite, every_finite, same_encodings};

verus! {

#[derive(Clone, Copy, Debug, PartialEq, Eq, Structural)]
pub enum ReflectionCaptureShape {
    Sphere,
    Box,
}

/// Static captures are baked; dynamic ones have no probe yet and contribute nothing.
#[derive(Clone, Copy, Debug, PartialEq, Eq, Structural)]
pub enum ReflectionCaptureMobility {
    Static,
    Dynamic,
}

#[derive(Clone, Copy, Debug)]
pub struct ReflectionCaptureDescriptor {
    pub shape: ReflectionCaptureShape,
    pub mobility: ReflectionCaptureMobility,
    /// World transform, column by column.
    pub transform: [F32; 16],
    /// Sphere influence radius, in world units.
    pub influence_radius: F32,
    /// Box half-extents, in capture-local space.
    pub extents: [F32; 3],
    /// Distance over which a box capture fades out at its faces.
    pub transition_distance: F32,
    /// Linear multiplier on the sampled radiance.
    pub brightness: F32,
}

pub const FIVE_BITS: u32 = 0x40A0_0000;

pub const TEN_BITS: u32 = 0x4120_0000;

/// The transform that moves by `offset` and does nothing else.
pub open spec fn translation(offset: [F32; 3]) -> [F32; 16] {
    let one = single(ONE_BITS);
    let zero = single(0);
    [
        one,
        zero,
        zero,
        zero,
        zero,
        one,
        zero,
        zero,
        zero,
        zero,
        one,
        zero,
        offset[0],
        offset[1],
        offset[2],
        one,
    ]
}

fn translate(offset: [F32; 3]) -> (transform: [F32; 16])
    ensures
        transform == translation(offset),
{
    let one: F32 = from_bits(ONE_BITS);
    let zero: F32 = from_bits(0);
    let transform: [F32; 16] = [
        one,
        zero,
        zero,
        zero,
        zero,
        one,
        zero,
        zero,
        zero,
        zero,
        one,
        zero,
        offset[0],
        offset[1],
        offset[2],
        one,
    ];
    assert(transform@ =~= translation(offset)@);
    assert(transform =~= translation(offset));
    transform
}

/// A baked sphere of ten units at the origin.
pub open spec fn default_capture() -> ReflectionCaptureDescriptor {
    ReflectionCaptureDescriptor {
        shape: ReflectionCaptureShape::Sphere,
        mobility: ReflectionCaptureMobility::Static,
        transform: translation([single(0), single(0), single(0)]),
        influence_radius: single(TEN_BITS),
        extents: [single(FIVE_BITS), single(FIVE_BITS), single(FIVE_BITS)],
        transition_distance: single(ONE_BITS),
        brightness: single(ONE_BITS),
    }
}

impl Default for ReflectionCaptureDescriptor {
    fn default() -> (desc: Self)
        ensures
            desc == default_capture(),
    {
        let zero: F32 = from_bits(0);
        let origin: [F32; 3] = [zero, zero, zero];
        assert(origin@ =~= [single(0), single(0), single(0)]@);
        assert(origin =~= [single(0), single(0), single(0)]);
        let five: F32 = from_bits(FIVE_BITS);
        let extents: [F32; 3] = [five, five, five];
        assert(extents@ =~= default_capture().extents@);
        assert(extents =~= default_capture().extents);
        ReflectionCaptureDescriptor {
            shape: ReflectionCaptureShape::Sphere,
            mobility: ReflectionCaptureMobility::Static,
            transform: translate(origin),
            influence_radius: from_bits(TEN_BITS),
            extents,
            transition_distance: from_bits(ONE_BITS),
            brightness: from_bits(ONE_BITS),
        }
    }
}

impl ReflectionCaptureDescriptor {
    /// A sphere capture centred on `center` reaching `radius` world units.
    pub fn sphere(center: [F32; 3], radius: F32) -> (desc: Self)
        ensures
            desc == (ReflectionCaptureDescriptor {
                transform: translation(center),
                influence_radius: radius,
                ..default_capture()
            }),
    {
        ReflectionCaptureDescriptor {
            transform: translate(center),
            influence_radius: radius,
            ..Self::default()
        }
    }

    /// A box capture filling the transform's volume out to `extents` half-extents.
    /// `radius` is the length of `extents`; it bounds the box.
    pub fn boxed(transform: [F32; 16], extents: [F32; 3], radius: F32) -> (desc: Self)
        ensures
            desc == (ReflectionCaptureDescriptor {
                shape: ReflectionCaptureShape::Box,
                transform,
                extents,
                influence_radius: radius,
                ..default_capture()
            }),
    {
        ReflectionCaptureDescriptor {
            shape: ReflectionCaptureShape::Box,
            transform,
            extents,
            influence_radius: radius,
            ..Self::default()
        }
    }

    /// The same capture, updated at run time in place of baked.
    pub fn dynamic(self) -> (desc: Self)
        ensures
            desc == (ReflectionCaptureDescriptor {
                mobility: ReflectionCaptureMobility::Dynamic,
                ..self
            }),
    {
        ReflectionCaptureDescriptor { mobility: ReflectionCaptureMobility::Dynamic, ..self }
    }

    pub fn with_brightness(self, brightness: F32) -> (desc: Self)
        ensures
            desc == (ReflectionCaptureDescriptor { brightness, ..self }),
    {
        ReflectionCaptureDescriptor { brightness, ..self }
    }

    pub fn with_transition_distance(self, distance: F32) -> (desc: Self)
        ensures
            desc == (ReflectionCaptureDescriptor { transition_distance: distance, ..self }),
    {
        ReflectionCaptureDescriptor { transition_distance: distance, ..self }
    }

    pub open spec fn spec_position(&self) -> [F32; 3] {
        [self.transform[12], self.transform[13], self.transform[14]]
    }

    /// World-space position of the capture, which is where its probe is baked.
    pub fn position(&self) -> (position: [F32; 3])
        ensures
            position == self.spec_position(),
    {
        let position: [F32; 3] = [self.transform[12], self.transform[13], self.transform[14]];
        assert(position@ =~= self.spec_position()@);
        assert(position =~= self.spec_position());
        position
    }
}

/// A capture row as shaders read it.
#[derive(Clone, Copy, Debug)]
pub struct GpuReflectionCapture {
    pub position_radius: [F32; 4],
    pub extents_transition: [F32; 4],
    /// Inverse of the world transform, column by column.
    pub world_to_local: [F32; 16],
    pub cubemap_index: i32,
    pub shape: ReflectionCaptureShape,
    pub mobility: ReflectionCaptureMobility,
    pub brightness: F32,
}

impl GpuReflectionCapture {
    /// Whether two rows hold the same encodings.
    pub fn same(&self, other: &GpuReflectionCapture) -> (same: bool)
        ensures
            same == (*self == *other),
    {
        same_encodings(&self.position_radius, &other.position_radius) && same_encodings(
            &self.extents_transition,
            &other.extents_transition,
        ) && same_encodings(&self.world_to_local, &other.world_to_local) && self.cubemap_index
            == other.cubemap_index && self.shape == other.shape && self.mobility == other.mobility
            && self.brightness == other.brightness
    }
}

/// What is measured of a capture besides its authored parameters.
#[derive(Clone, Copy, Debug)]
pub struct CaptureMeasure {
    /// Inverse of the world transform.
    pub world_to_local: [F32; 16],
    /// Size of the influence, by which captures are ordered.
    pub influence: F32,
}

/// Why a capture's parameters are rejected, if they are.
pub open spec fn capture_error(
    desc: ReflectionCaptureDescriptor,
    world_to_local: [F32; 16],
) -> Option<SceneError> {
    if !every_finite(desc.transform) {
        Some(
            SceneError::InvalidOperation { reason: "reflection capture transform must be finite" },
        )
    } else if !every_finite(world_to_local) {
        Some(
            SceneError::InvalidOperation {
                reason: "reflection capture transform must be invertible",
            },
        )
    } else if !desc.influence_radius.spec_is_nonnegative() {
        Some(
            SceneError::InvalidOperation {
                reason:
                    "reflection capture influence radius must be finite and non-negative",
            },
        )
    } else if !(desc.extents[0].spec_is_nonnegative() && desc.extents[1].spec_is_nonnegative()
        && desc.extents[2].spec_is_nonnegative()) {
        Some(
            SceneError::InvalidOperation {
                reason: "reflection capture extents must be finite and non-negative",
            },
        )
    } else if !desc.transition_distance.spec_is_nonnegative() {
        Some(
            SceneError::InvalidOperation {
                reason:
                    "reflection capture transition distance must be finite and non-negative",
            },
        )
    } else if !desc.brightness.spec_is_finite() {
        Some(
            SceneError::InvalidOperation { reason: "reflection capture brightness must be finite" },
        )
    } else {
        None
    }
}

/// The authored row of a capture; its layer stays unassigned.
pub open spec fn capture_row(
    desc: ReflectionCaptureDescriptor,
    world_to_local: [F32; 16],
) -> GpuReflectionCapture {
    GpuReflectionCapture {
        position_radius: [
            desc.transform[12],
            desc.transform[13],
            desc.transform[14],
            desc.influence_radius,
        ],
        extents_transition: [
            desc.extents[0],
            desc.extents[1],
            desc.extents[2],
            desc.transition_distance,
        ],
        world_to_local,
        cubemap_index: NO_LAYER,
        shape: desc.shape,
        mobility: desc.mobility,
        brightness: desc.brightness,
    }
}

fn operation<T>(reason: &'static str) -> (result: Result<T>)
    ensures
        result == Err::<T, _>(SceneError::InvalidOperation { reason }),
{
    Err(SceneError::InvalidOperation { reason })
}

fn build_row(desc: &ReflectionCaptureDescriptor, world_to_local: [F32; 16]) -> (result: Result<
    GpuReflectionCapture,
>)
    ensures
        result == match capture_error(*desc, world_to_local) {
            Some(error) => Err::<GpuReflectionCapture, _>(error),
            None => Ok(capture_row(*desc, world_to_local)),
        },
{
    if !all_finite(&desc.transform) {
        return operation("reflection capture transform must be finite");
    }
    if !all_finite(&world_to_local) {
        return operation("reflection capture transform must be invertible");
    }
    if !desc.influence_radius.is_nonnegative() {
        return operation("reflection capture influence radius must be finite and non-negative");
    }
    if !desc.extents[0].is_nonnegative() || !desc.extents[1].is_nonnegative()
        || !desc.extents[2].is_nonnegative() {
        return operation("reflection capture extents must be finite and non-negative");
    }
    if !desc.transition_distance.is_nonnegative() {
        return operation(
            "reflection capture transition distance must be finite and non-negative",
        );
    }
    if !desc.brightness.is_finite() {
        return operation("reflection capture brightness must be finite");
    }
    let pos: [F32; 3] = desc.position();
    let position_radius: [F32; 4] = [pos[0], pos[1], pos[2], desc.influence_radius];
    let extents_transition: [F32; 4] = [
        desc.extents[0],
        desc.extents[1],
        desc.extents[2],
        desc.transition_distance,
    ];
    assert(position_radius@ =~= capture_row(*desc, world_to_local).position_radius@);
    assert(position_radius =~= capture_row(*desc, world_to_local).position_radius);
    assert(extents_transition@ =~= capture_row(*desc, world_to_local).extents_transition@);
    assert(extents_transition =~= capture_row(*desc, world_to_local).extents_transition);
    Ok(
        GpuReflectionCapture {
            position_radius,
            extents_transition,
            world_to_local,
            cubemap_index: NO_LAYER,
            shape: desc.shape,
            mobility: desc.mobility,
            brightness: desc.brightness,
        },
    )
}

#[derive(Clone, Copy, Debug)]
pub struct ReflectionCaptureRecord {
    pub row: GpuReflectionCapture,
    pub influence: F32,
    pub user_tag: u64,
}

/// Influence, GPU row and layer of each capture, in compact order.
pub open spec fn capture_candidates(
    records: Map<ReflectionCaptureId, ReflectionCaptureRecord>,
    ids: Seq<ReflectionCaptureId>,
    rows: Seq<u32>,
    layers: Seq<i32>,
) -> Seq<(F32, u32, i32)> {
    Seq::new(ids.len(), |i: int| (records[ids[i]].influence, rows[i], layers[i]))
}

/// The static captures among `ids`, in order.
pub open spec fn static_captures(
    records: Map<ReflectionCaptureId, ReflectionCaptureRecord>,
    ids: Seq<ReflectionCaptureId>,
) -> Seq<ReflectionCaptureId>
    decreases ids.len(),
{
    if ids.len() == 0 {
        Seq::empty()
    } else {
        let rest = static_captures(records, ids.drop_last());
        if records[ids.last()].row.mobility == ReflectionCaptureMobility::Static {
            rest.push(ids.last())
        } else {
            rest
        }
    }
}

/// Layers after the static captures were numbered in order; others keep theirs.
pub open spec fn numbered_layers(
    records: Map<ReflectionCaptureId, ReflectionCaptureRecord>,
    ids: Seq<ReflectionCaptureId>,
    layers: Seq<i32>,
) -> Seq<i32> {
    Seq::new(
        ids.len(),
        |i: int|
            if records[ids[i]].row.mobility == ReflectionCaptureMobility::Static {
                static_captures(records, ids.take(i)).len() as i32
            } else {
                layers[i]
            },
    )
}

proof fn lemma_static_captures_bounded(
    records: Map<ReflectionCaptureId, ReflectionCaptureRecord>,
    ids: Seq<ReflectionCaptureId>,
)
    ensures
        static_captures(records, ids).len() <= ids.len(),
    decreases ids.len(),
{
    if ids.len() > 0 {
        lemma_static_captures_bounded(records, ids.drop_last());
    }
}

/// The number that a static capture gets is its place in the list of static
/// captures: layers follow the order in which positions are reported.
pub proof fn lemma_layer_is_place_in_report(
    records: Map<ReflectionCaptureId, ReflectionCaptureRecord>,
    ids: Seq<ReflectionCaptureId>,
    i: int,
)
    requires
        0 <= i < ids.len(),
        records[ids[i]].row.mobility == ReflectionCaptureMobility::Static,
    ensures
        static_captures(records, ids.take(i)).len() < static_captures(records, ids).len(),
        static_captures(records, ids)[static_captures(records, ids.take(i)).len() as int] == ids[i],
    decreases ids.len(),
{
    let k = static_captures(records, ids.take(i)).len() as int;
    if i == ids.len() - 1 {
        assert(ids.take(i) =~= ids.drop_last());
    } else {
        assert(ids.drop_last().take(i) =~= ids.take(i));
        lemma_layer_is_place_in_report(records, ids.drop_last(), i);
    }
}

pub struct Reflections {
    pub captures: SparseSet<ReflectionCaptureId, ReflectionCaptureRecord>,
    pub projection: ReflectionProjection,
    /// `[row, layer]` pairs that the shader walks, smallest influence first.
    pub shader_pairs: Vec<[u32; 2]>,
}

impl Reflections {
    pub open spec fn spec_ids(&self) -> Seq<ReflectionCaptureId> {
        self.captures.id_by_slot@
    }

    pub open spec fn candidates(&self) -> Seq<(F32, u32, i32)> {
        capture_candidates(
            self.captures@,
            self.spec_ids(),
            self.projection.active.spec_rows(),
            self.projection.layers@,
        )
    }

    /// Records and projection stand in the same compact order.
    pub open spec fn aligned(&self) -> bool {
        &&& self.captures.wf()
        &&& self.projection.wf()
        &&& self.captures.id_by_slot@ == self.projection.active.spec_ids()
    }

    /// Shaders see exactly the selected captures.
    pub open spec fn wf(&self) -> bool {
        &&& self.aligned()
        &&& capture_pairs(self.shader_pairs@, selected_captures(self.candidates()))
    }

    /// Records and projection agree on which captures are live, and where.
    pub proof fn lemma_places_agree(&self, id: ReflectionCaptureId)
        requires
            self.aligned(),
        ensures
            self.projection.active.contains(id) <==> self.captures@.contains_key(id),
            self.captures@.contains_key(id) ==> self.projection.active.place(id)
                == self.captures.place(id) && 0 <= self.captures.place(id)
                < self.captures.spec_len() && self.spec_ids()[self.captures.place(id)] == id,
    {
        self.captures.lemma_contains(id);
        self.projection.active.rows.lemma_contains(id);
        if self.captures@.contains_key(id) {
            self.projection.active.rows.lemma_dense(self.captures.place(id));
        }
    }

    proof fn lemma_slots_agree(&self, index: u32)
        requires
            self.aligned(),
            !self.captures.occupies(index),
        ensures
            !self.projection.active.occupies(index),
    {
        let b = self.projection.active.rows;
        if b.occupies(index) {
            let p = b.slot_by_entity@[index as int] as int;
            assert(b.id_by_slot@[p].spec_entity().index == index);
            assert(self.captures.id_by_slot@[p].spec_entity().index == index);
        }
    }

    pub fn new() -> (reflections: Self)
        ensures
            reflections.wf(),
            reflections.captures.spec_len() == 0,
    {
        let mut reflections = Reflections {
            captures: SparseSet::new(),
            projection: ReflectionProjection::new(),
            shader_pairs: Vec::new(),
        };
        reflections.rebuild();
        reflections
    }

    /// Selects anew what shaders see.
    fn rebuild(&mut self)
        requires
            old(self).aligned(),
        ensures
            final(self).wf(),
            final(self).captures == old(self).captures,
            final(self).projection == old(self).projection,
    {
        let mut candidates: Vec<(F32, u32, i32)> = Vec::new();
        let mut i: usize = 0;
        while i < self.captures.id_by_slot.len()
            invariant
                0 <= i <= self.captures.spec_len(),
                self.aligned(),
                candidates@ =~= self.candidates().take(i as int),
            decreases self.captures.spec_len() - i,
        {
            proof {
                self.captures.lemma_dense(i as int);
            }
            candidates.push(
                (
                    self.captures.value_by_slot[i].influence,
                    self.projection.active.rows.value_by_slot[i],
                    self.projection.layers[i],
                ),
            );
            i = i + 1;
        }
        assert(candidates@ =~= self.candidates());
        let (pairs, _) = select_resident_reflection_projections(&candidates);
        self.shader_pairs = pairs;
    }
}

impl Scene {
    /// Inserts a capture without a tag.
    pub fn insert_reflection_capture(
        &mut self,
        new: NewRow,
        desc: ReflectionCaptureDescriptor,
        measure: CaptureMeasure,
    ) -> (result: Result<ReflectionCaptureId>)
        requires
            old(self).wf(),
            !old(self).reflections.captures.occupies(new.entity.index),
            new.entity.index < usize::MAX,
            old(self).reflections.captures.spec_len() < u32::MAX,
        ensures
            final(self).wf(),
            old(self).capture_inserted(final(self), new, desc, measure, 0, result),
    {
        self.insert_reflection_capture_with_tag(new, desc, measure, 0)
    }

    /// `after` is `self` with the capture inserted, or `self` if its parameters are
    /// rejected.
    pub open spec fn capture_inserted(
        &self,
        after: &Scene,
        new: NewRow,
        desc: ReflectionCaptureDescriptor,
        measure: CaptureMeasure,
        user_tag: u64,
        result: Result<ReflectionCaptureId>,
    ) -> bool {
        let id = ReflectionCaptureId(new.entity);
        match capture_error(desc, measure.world_to_local) {
            Some(error) => result == Err::<ReflectionCaptureId, _>(error) && *after == *self,
            None => {
                &&& result == Ok::<_, SceneError>(id)
                &&& *after == (Scene {
                    reflections: after.reflections,
                    bake_invalidated: self.bake_invalidated || desc.mobility
                        == ReflectionCaptureMobility::Static,
                    ..*self
                })
                &&& after.reflections.captures@ == self.reflections.captures@.insert(
                    id,
                    ReflectionCaptureRecord {
                        row: capture_row(desc, measure.world_to_local),
                        influence: measure.influence,
                        user_tag,
                    },
                )
                &&& after.reflections.spec_ids() == self.reflections.spec_ids().push(id)
                &&& after.reflections.projection.active.spec_rows()
                    == self.reflections.projection.active.spec_rows().push(new.gpu_row)
                &&& after.reflections.projection.layers@
                    == self.reflections.projection.layers@.push(NO_LAYER)
            },
        }
    }

    /// Inserts a capture; it has no layer until layers are assigned.
    pub fn insert_reflection_capture_with_tag(
        &mut self,
        new: NewRow,
        desc: ReflectionCaptureDescriptor,
        measure: CaptureMeasure,
        user_tag: u64,
    ) -> (result: Result<ReflectionCaptureId>)
        requires
            old(self).wf(),
            !old(self).reflections.captures.occupies(new.entity.index),
            new.entity.index < usize::MAX,
            old(self).reflections.captures.spec_len() < u32::MAX,
        ensures
            final(self).wf(),
            old(self).capture_inserted(final(self), new, desc, measure, user_tag, result),
    {
        let row: GpuReflectionCapture = match build_row(&desc, measure.world_to_local) {
            Ok(row) => row,
            Err(error) => {
                return Err(error);
            },
        };
        let id = ReflectionCaptureId(new.entity);
        proof {
            self.reflections.lemma_slots_agree(new.entity.index);
        }
        self.reflections.captures.insert(
            id,
            ReflectionCaptureRecord { row, influence: measure.influence, user_tag },
        );
        self.reflections.projection.insert(id, new.gpu_row);
        self.reflections.rebuild();
        if desc.mobility == ReflectionCaptureMobility::Static {
            self.bake_invalidated = true;
        }
        Ok(id)
    }

    /// `after` is `self` with another capture under `id`.
    pub open spec fn capture_updated(
        &self,
        after: &Scene,
        id: ReflectionCaptureId,
        desc: ReflectionCaptureDescriptor,
        measure: CaptureMeasure,
        result: Result<()>,
    ) -> bool {
        &&& result == if !self.reflections.captures@.contains_key(id) {
            Err::<(), _>(SceneError::InvalidHandle { resource: "reflection capture" })
        } else {
            match capture_error(desc, measure.world_to_local) {
                Some(error) => Err(error),
                None => Ok(()),
            }
        }
        &&& if result is Ok && self.reflections.captures@[id].row != capture_row(
            desc,
            measure.world_to_local,
        ) {
            let before = self.reflections;
            let now = after.reflections;
            &&& *after == (Scene {
                reflections: now,
                bake_invalidated: self.bake_invalidated || before.captures@[id].row.mobility
                    == ReflectionCaptureMobility::Static || desc.mobility
                    == ReflectionCaptureMobility::Static,
                ..*self
            })
            &&& now.captures@ == before.captures@.insert(
                id,
                ReflectionCaptureRecord {
                    row: capture_row(desc, measure.world_to_local),
                    influence: measure.influence,
                    user_tag: before.captures@[id].user_tag,
                },
            )
            &&& now.spec_ids() == before.spec_ids()
            &&& now.projection.active == before.projection.active
            &&& now.projection.layers@ == if desc.mobility
                == ReflectionCaptureMobility::Static {
                before.projection.layers@
            } else {
                before.projection.layers@.update(before.captures.place(id), NO_LAYER)
            }
        } else {
            *after == *self
        }
    }

    /// Replaces a capture's parameters. A capture that is no longer static loses
    /// its layer.
    pub fn update_reflection_capture(
        &mut self,
        id: ReflectionCaptureId,
        desc: &ReflectionCaptureDescriptor,
        measure: CaptureMeasure,
    ) -> (result: Result<()>)
        requires
            old(self).wf(),
        ensures
            final(self).wf(),
            old(self).capture_updated(final(self), id, *desc, measure, result),
    {
        let record: ReflectionCaptureRecord = match self.reflections.captures.get(id) {
            Some(record) => *record,
            None => {
                return Err(invalid("reflection capture"));
            },
        };
        let row: GpuReflectionCapture = match build_row(desc, measure.world_to_local) {
            Ok(row) => row,
            Err(error) => {
                return Err(error);
            },
        };
        if record.row.same(&row) {
            return Ok(());
        }
        proof {
            self.reflections.lemma_places_agree(id);
        }
        self.reflections.captures.set(
            id,
            ReflectionCaptureRecord {
                row,
                influence: measure.influence,
                user_tag: record.user_tag,
            },
        );
        if record.row.mobility == ReflectionCaptureMobility::Static || row.mobility
            == ReflectionCaptureMobility::Static {
            self.bake_invalidated = true;
        }
        if row.mobility != ReflectionCaptureMobility::Static {
            self.reflections.projection.set_layer(id, NO_LAYER);
        }
        self.reflections.rebuild();
        Ok(())
    }

    /// `after` is `self` without a capture and the actors that belong to it.
    pub open spec fn reflection_capture_removed(&self, after: &Scene, id: ReflectionCaptureId) -> bool {
        let before = self.reflections;
        let now = after.reflections;
        let i = before.captures.place(id);
        &&& *after == (Scene {
            reflections: now,
            bake_invalidated: self.bake_invalidated || before.captures@[id].row.mobility
                == ReflectionCaptureMobility::Static,
            actors: after.actors,
            data: after.data,
            ..*self
        })
        &&& self.detached(SceneActorId::ReflectionCapture(id), after)
        &&& now.captures@ == before.captures@.remove(id)
        &&& now.spec_ids() == swap_removed(before.spec_ids(), i)
        &&& now.projection.active.spec_rows() == swap_removed(
            before.projection.active.spec_rows(),
            i,
        )
        &&& now.projection.layers@ == swap_removed(before.projection.layers@, i)
    }

    /// Removes a capture and the actors that belong to it; tells whether it was
    /// live.
    pub fn remove_reflection_capture(&mut self, id: ReflectionCaptureId) -> (removed: bool)
        requires
            old(self).wf(),
        ensures
            final(self).wf(),
            removed == old(self).reflections.captures@.contains_key(id),
            if removed {
                old(self).reflection_capture_removed(final(self), id)
            } else {
                *final(self) == *old(self)
            },
    {
        let record: ReflectionCaptureRecord = match self.reflections.captures.get(id) {
            Some(record) => *record,
            None => {
                return false;
            },
        };
        proof {
            self.reflections.lemma_places_agree(id);
        }
        self.reflections.captures.remove(id);
        self.reflections.projection.remove(id);
        self.reflections.rebuild();
        if record.row.mobility == ReflectionCaptureMobility::Static {
            self.bake_invalidated = true;
        }
        self.detach_actors_for_target(SceneActorId::ReflectionCapture(id));
        true
    }

    /// The row of a live capture with the layer that it has now.
    pub open spec fn resident_capture(&self, id: ReflectionCaptureId) -> GpuReflectionCapture {
        GpuReflectionCapture {
            cubemap_index: self.reflections.projection.layer_of(id),
            ..self.reflections.captures@[id].row
        }
    }

    pub fn get_reflection_capture(&self, id: ReflectionCaptureId) -> (capture: Option<
        GpuReflectionCapture,
    >)
        requires
            self.wf(),
        ensures
            capture == if self.reflections.captures@.contains_key(id) {
                Some(self.resident_capture(id))
            } else {
                None::<GpuReflectionCapture>
            },
    {
        proof {
            self.reflections.lemma_places_agree(id);
        }
        match (self.reflections.captures.get(id), self.reflections.projection.layer(id)) {
            (Some(record), Some(layer)) => Some(
                GpuReflectionCapture { cubemap_index: layer, ..record.row },
            ),
            _ => None,
        }
    }

    /// All captures with their layers and tags, in compact order.
    pub fn iter_reflection_captures(&self) -> (list: Vec<
        (ReflectionCaptureId, GpuReflectionCapture, u64),
    >)
        requires
            self.wf(),
        ensures
            list@.len() == self.reflections.captures.spec_len(),
            forall|i: int|
                0 <= i < list@.len() ==> (#[trigger] list@[i]).0 == self.reflections.spec_ids()[i]
                    && list@[i].1 == self.resident_capture(list@[i].0) && list@[i].2
                    == self.reflections.captures@[list@[i].0].user_tag,
    {
        let mut list: Vec<(ReflectionCaptureId, GpuReflectionCapture, u64)> = Vec::new();
        let mut i: usize = 0;
        while i < self.reflections.captures.id_by_slot.len()
            invariant
                0 <= i <= self.reflections.captures.spec_len(),
                self.reflections.aligned(),
                list@.len() == i,
                forall|j: int|
                    0 <= j < i ==> (#[trigger] list@[j]).0 == self.reflections.spec_ids()[j]
                        && list@[j].1 == self.resident_capture(list@[j].0) && list@[j].2
                        == self.reflections.captures@[list@[j].0].user_tag,
            decreases self.reflections.captures.spec_len() - i,
        {
            let id: ReflectionCaptureId = self.reflections.captures.id_by_slot[i];
            let record: ReflectionCaptureRecord = self.reflections.captures.value_by_slot[i];
            proof {
                self.reflections.captures.lemma_dense(i as int);
                self.reflections.lemma_places_agree(id);
            }
            let capture = GpuReflectionCapture {
                cubemap_index: self.reflections.projection.layers[i],
                ..record.row
            };
            list.push((id, capture, record.user_tag));
            i = i + 1;
        }
        list
    }

    pub fn reflection_capture_count(&self) -> (count: usize)
        requires
            self.wf(),
        ensures
            count == self.reflections.captures.spec_len(),
    {
        self.reflections.projection.len()
    }

    /// World positions of every static capture, in the order in which layers are
    /// assigned.
    pub fn static_reflection_capture_positions(&self) -> (positions: Vec<[F32; 3]>)
        requires
            self.wf(),
        ensures
            ({
                let listed = static_captures(self.reflections.captures@, self.reflections.spec_ids());
                &&& positions@.len() == listed.len()
                &&& forall|k: int|
                    0 <= k < positions@.len() ==> {
                        let p = self.reflections.captures@[listed[k]].row.position_radius;
                        #[trigger] positions@[k] == [p[0], p[1], p[2]]
                    }
            }),
    {
        let mut positions: Vec<[F32; 3]> = Vec::new();
        let ghost map = self.reflections.captures@;
        let ghost ids = self.reflections.spec_ids();
        let mut i: usize = 0;
        while i < self.reflections.captures.id_by_slot.len()
            invariant
                0 <= i <= self.reflections.captures.spec_len(),
                self.reflections.aligned(),
                map == self.reflections.captures@,
                ids == self.reflections.spec_ids(),
                positions@.len() == static_captures(map, ids.take(i as int)).len(),
                forall|k: int|
                    0 <= k < positions@.len() ==> {
                        let p = map[static_captures(
                            map,
                            ids.take(i as int),
                        )[k]].row.position_radius;
                        #[trigger] positions@[k] == [p[0], p[1], p[2]]
                    },
            decreases self.reflections.captures.spec_len() - i,
        {
            proof {
                self.reflections.captures.lemma_dense(i as int);
                assert(ids.take(i + 1).drop_last() =~= ids.take(i as int));
            }
            let row: GpuReflectionCapture = self.reflections.captures.value_by_slot[i].row;
            if row.mobility == ReflectionCaptureMobility::Static {
                let p: [F32; 4] = row.position_radius;
                let position: [F32; 3] = [p[0], p[1], p[2]];
                proof {
                    let want = [p[0], p[1], p[2]];
                    assert(position@ =~= want@);
                    assert(position =~= want);
                }
                positions.push(position);
            }
            i = i + 1;
        }
        assert(ids.take(i as int) =~= ids);
        positions
    }

    /// Numbers the static captures in the order in which their positions are
    /// reported; the number is the cube-array layer.
    pub fn assign_reflection_capture_layers(&mut self)
        requires
            old(self).wf(),
            old(self).reflections.captures.spec_len() <= i32::MAX,
        ensures
            final(self).wf(),
            *final(self) == (Scene { reflections: final(self).reflections, ..*old(self) }),
            final(self).reflections.captures == old(self).reflections.captures,
            final(self).reflections.projection.active == old(self).reflections.projection.active,
            final(self).reflections.projection.layers@ == numbered_layers(
                old(self).reflections.captures@,
                old(self).reflections.spec_ids(),
                old(self).reflections.projection.layers@,
            ),
    {
        let ghost before = self.reflections;
        let ghost map = before.captures@;
        let ghost ids = before.spec_ids();
        let ghost want = numbered_layers(map, ids, before.projection.layers@);
        let mut layer: u32 = 0;
        let mut i: usize = 0;
        while i < self.reflections.captures.id_by_slot.len()
            invariant
                0 <= i <= ids.len() <= i32::MAX,
                before.aligned(),
                map == before.captures@,
                ids == before.spec_ids(),
                want == numbered_layers(map, ids, before.projection.layers@),
                *self == (Scene { reflections: self.reflections, ..*old(self) }),
                self.reflections.captures == before.captures,
                self.reflections.projection.active == before.projection.active,
                self.reflections.projection.layers@.len() == ids.len(),
                layer == static_captures(map, ids.take(i as int)).len() <= i,
                forall|j: int|
                    0 <= j < ids.len() ==> #[trigger] self.reflections.projection.layers@[j]
                        == if j < i {
                        want[j]
                    } else {
                        before.projection.layers@[j]
                    },
            decreases ids.len() - i,
        {
            proof {
                before.captures.lemma_dense(i as int);
                assert(ids.take(i + 1).drop_last() =~= ids.take(i as int));
                lemma_static_captures_bounded(map, ids.take(i + 1));
            }
            if self.reflections.captures.value_by_slot[i].row.mobility
                == ReflectionCaptureMobility::Static {
                self.reflections.projection.layers.set(i, layer as i32);
                layer = layer + 1;
            }
            i = i + 1;
        }
        assert(self.reflections.projection.layers@ =~= want);
        self.reflections.rebuild();
    }
}

} // verus!
