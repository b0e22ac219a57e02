//! Planar reflectors: finite rectangles whose surface mirrors the screen.
use vstd::prelude::*;

use crate::errors::{invalid, Result, SceneError};
use crate::float_bits::{from_bits, single, F32, ONE_BITS};
use crate::handles::PlanarReflectorId;
use crate::projected_table::ProjectedTable;
use crate::rows::NewRow;
use crate::scene::Scene;
use crate::words::{all_finite, every_finite};

verus! {

/// Encoding of pi/2.
pub const RIGHT_ANGLE_BITS: u32 = 0x3FC9_0FDB;

/// Encoding of fifteen degrees in radians.
pub const DEFAULT_NORMAL_TOLERANCE_BITS: u32 = 0x3E86_0A92;

/// Encoding of 0.05.
pub const DEFAULT_SURFACE_TOLERANCE_BITS: u32 = 0x3D4C_CCCD;

/// Encoding of fifty.
pub const DEFAULT_HALF_EXTENT_BITS: u32 = 0x4248_0000;

/// Encoding of 1e-12: a projected tangent whose squared length does not exceed
/// it does not span a plane with the normal.
pub const BASIS_EPSILON_SQ_BITS: u32 = 0x2B8C_BCCC;

/// Authored rectangle. `normal` and `tangent` need not be of unit length, but they
/// must be finite and linearly independent.
#[derive(Clone, Copy, Debug)]
pub struct PlanarReflectorDescriptor {
    pub position: [F32; 3],
    pub normal: [F32; 3],
    pub tangent: [F32; 3],
    pub half_extents: [F32; 2],
    /// Largest distance between a surface point and the plane.
    pub surface_tolerance: F32,
    /// Largest angle between the surface normal and the reflector's.
    pub normal_tolerance_radians: F32,
    /// Higher priority wins where reflectors overlap.
    pub priority: F32,
}

/// A rectangle in the ground plane.
pub open spec fn default_reflector() -> PlanarReflectorDescriptor {
    PlanarReflectorDescriptor {
        position: [single(0), single(0), single(0)],
        normal: [single(0), single(ONE_BITS), single(0)],
        tangent: [single(ONE_BITS), single(0), single(0)],
        half_extents: [single(DEFAULT_HALF_EXTENT_BITS), single(DEFAULT_HALF_EXTENT_BITS)],
        surface_tolerance: single(DEFAULT_SURFACE_TOLERANCE_BITS),
        normal_tolerance_radians: single(DEFAULT_NORMAL_TOLERANCE_BITS),
        priority: single(0),
    }
}

impl Default for PlanarReflectorDescriptor {
    fn default() -> (desc: Self)
        ensures
            desc == default_reflector(),
    {
        let zero: F32 = from_bits(0);
        let one: F32 = from_bits(ONE_BITS);
        let half: F32 = from_bits(DEFAULT_HALF_EXTENT_BITS);
        let desc = PlanarReflectorDescriptor {
            position: [zero, zero, zero],
            normal: [zero, one, zero],
            tangent: [one, zero, zero],
            half_extents: [half, half],
            surface_tolerance: from_bits(DEFAULT_SURFACE_TOLERANCE_BITS),
            normal_tolerance_radians: from_bits(DEFAULT_NORMAL_TOLERANCE_BITS),
            priority: zero,
        };
        proof {
            let want = default_reflector();
            assert(desc.position@ =~= want.position@);
            assert(desc.position =~= want.position);
            assert(desc.normal@ =~= want.normal@);
            assert(desc.normal =~= want.normal);
            assert(desc.tangent@ =~= want.tangent@);
            assert(desc.tangent =~= want.tangent);
            assert(desc.half_extents@ =~= want.half_extents@);
            assert(desc.half_extents =~= want.half_extents);
        }
        desc
    }
}

/// A reflector row as shaders read it.
#[derive(Clone, Copy, Debug)]
pub struct ScenePlanarReflectorRow {
    pub position_tolerance: [F32; 4],
    pub normal_cos_threshold: [F32; 4],
    pub tangent_priority: [F32; 4],
    pub half_extents_reserved: [F32; 4],
}

/// What is measured of a descriptor whose basis vectors are finite and not zero.
#[derive(Clone, Copy, Debug)]
pub struct PlanarMeasure {
    /// The normal scaled to unit length.
    pub normal: [F32; 3],
    /// Squared length of the unit tangent's component across the normal.
    pub projected_length_squared: F32,
    /// That component scaled to unit length.
    pub tangent: [F32; 3],
    /// Cosine of the normal tolerance.
    pub cosine: F32,
}

/// Every component is a zero.
pub open spec fn is_zero(v: [F32; 3]) -> bool {
    v[0].spec_same_value(single(0)) && v[1].spec_same_value(single(0)) && v[2].spec_same_value(
        single(0),
    )
}

fn vanishes(v: &[F32; 3]) -> (zero: bool)
    ensures
        zero == is_zero(*v),
{
    let zero: F32 = from_bits(0);
    v[0].same_value(zero) && v[1].same_value(zero) && v[2].same_value(zero)
}

/// The number, or zero if it is not above that.
pub open spec fn at_least_zero(x: F32) -> F32 {
    if single(0).spec_lt(x) {
        x
    } else {
        single(0)
    }
}

impl PlanarReflectorDescriptor {
    /// A rectangle with the default tolerances and priority.
    pub fn new(
        position: [F32; 3],
        normal: [F32; 3],
        tangent: [F32; 3],
        half_extents: [F32; 2],
    ) -> (desc: Self)
        ensures
            desc == (PlanarReflectorDescriptor {
                position,
                normal,
                tangent,
                half_extents,
                ..default_reflector()
            }),
    {
        PlanarReflectorDescriptor { position, normal, tangent, half_extents, ..Self::default() }
    }

    /// Why the descriptor is rejected, if it is. The tests come in this order.
    pub open spec fn rejection(self, measure: PlanarMeasure) -> Option<SceneError> {
        if !every_finite(self.position) {
            Some(
                SceneError::InvalidOperation {
                    reason: "planar reflector position must be finite",
                },
            )
        } else if !every_finite(self.normal) || !every_finite(self.tangent) {
            Some(SceneError::InvalidOperation { reason: "planar reflector basis must be finite" })
        } else if !self.half_extents[0].spec_is_positive()
            || !self.half_extents[1].spec_is_positive() {
            Some(
                SceneError::InvalidOperation {
                    reason: "planar reflector half-extents must be finite and positive",
                },
            )
        } else if !self.surface_tolerance.spec_is_positive() {
            Some(
                SceneError::InvalidOperation {
                    reason: "planar reflector surface tolerance must be finite and positive",
                },
            )
        } else if !self.normal_tolerance_radians.spec_is_positive() || single(
            RIGHT_ANGLE_BITS,
        ).spec_lt(self.normal_tolerance_radians) {
            Some(
                SceneError::InvalidOperation {
                    reason: "planar reflector normal tolerance must be in (0, pi/2]",
                },
            )
        } else if !self.priority.spec_is_finite() {
            Some(
                SceneError::InvalidOperation {
                    reason: "planar reflector priority must be finite",
                },
            )
        } else if is_zero(self.normal) {
            Some(
                SceneError::InvalidOperation { reason: "planar reflector normal must be nonzero" },
            )
        } else if is_zero(self.tangent) {
            Some(
                SceneError::InvalidOperation { reason: "planar reflector tangent must be nonzero" },
            )
        } else if measure.projected_length_squared.spec_le(single(BASIS_EPSILON_SQ_BITS)) {
            Some(
                SceneError::InvalidOperation {
                    reason: "planar reflector tangent must be independent of its normal",
                },
            )
        } else {
            None
        }
    }

    /// The row of an accepted descriptor: the basis is the orthonormal one.
    pub open spec fn accepted_row(self, measure: PlanarMeasure) -> ScenePlanarReflectorRow {
        ScenePlanarReflectorRow {
            position_tolerance: [
                self.position[0],
                self.position[1],
                self.position[2],
                self.surface_tolerance,
            ],
            normal_cos_threshold: [
                measure.normal[0],
                measure.normal[1],
                measure.normal[2],
                at_least_zero(measure.cosine),
            ],
            tangent_priority: [
                measure.tangent[0],
                measure.tangent[1],
                measure.tangent[2],
                self.priority,
            ],
            half_extents_reserved: [
                self.half_extents[0],
                self.half_extents[1],
                single(0),
                single(0),
            ],
        }
    }

    /// Checks a descriptor and packs it.
    pub fn validated_row(self, measure: PlanarMeasure) -> (result: Result<ScenePlanarReflectorRow>)
        ensures
            result == match self.rejection(measure) {
                Some(error) => Err::<ScenePlanarReflectorRow, _>(error),
                None => Ok(self.accepted_row(measure)),
            },
    {
        if !all_finite(&self.position) {
            return rejected("planar reflector position must be finite");
        }
        if !all_finite(&self.normal) || !all_finite(&self.tangent) {
            return rejected("planar reflector basis must be finite");
        }
        if !self.half_extents[0].is_positive() || !self.half_extents[1].is_positive() {
            return rejected("planar reflector half-extents must be finite and positive");
        }
        if !self.surface_tolerance.is_positive() {
            return rejected("planar reflector surface tolerance must be finite and positive");
        }
        if !self.normal_tolerance_radians.is_positive() || from_bits(RIGHT_ANGLE_BITS).lt(
            self.normal_tolerance_radians,
        ) {
            return rejected("planar reflector normal tolerance must be in (0, pi/2]");
        }
        if !self.priority.is_finite() {
            return rejected("planar reflector priority must be finite");
        }
        if vanishes(&self.normal) {
            return rejected("planar reflector normal must be nonzero");
        }
        if vanishes(&self.tangent) {
            return rejected("planar reflector tangent must be nonzero");
        }
        if measure.projected_length_squared.le(from_bits(BASIS_EPSILON_SQ_BITS)) {
            return rejected("planar reflector tangent must be independent of its normal");
        }
        let zero: F32 = from_bits(0);
        let cosine: F32 = if zero.lt(measure.cosine) {
            measure.cosine
        } else {
            zero
        };
        let row = ScenePlanarReflectorRow {
            position_tolerance: [
                self.position[0],
                self.position[1],
                self.position[2],
                self.surface_tolerance,
            ],
            normal_cos_threshold: [
                measure.normal[0],
                measure.normal[1],
                measure.normal[2],
                cosine,
            ],
            tangent_priority: [
                measure.tangent[0],
                measure.tangent[1],
                measure.tangent[2],
                self.priority,
            ],
            half_extents_reserved: [self.half_extents[0], self.half_extents[1], zero, zero],
        };
        proof {
            let want = self.accepted_row(measure);
            assert(row.position_tolerance@ =~= want.position_tolerance@);
            assert(row.position_tolerance =~= want.position_tolerance);
            assert(row.normal_cos_threshold@ =~= want.normal_cos_threshold@);
            assert(row.normal_cos_threshold =~= want.normal_cos_threshold);
            assert(row.tangent_priority@ =~= want.tangent_priority@);
            assert(row.tangent_priority =~= want.tangent_priority);
            assert(row.half_extents_reserved@ =~= want.half_extents_reserved@);
            assert(row.half_extents_reserved =~= want.half_extents_reserved);
        }
        Ok(row)
    }

    /// What a row describes. `angle` is the arc cosine of the row's threshold.
    pub fn from_row(row: ScenePlanarReflectorRow, angle: F32) -> (desc: Self)
        ensures
            desc.position@ == row.position_tolerance@.take(3),
            desc.normal@ == row.normal_cos_threshold@.take(3),
            desc.tangent@ == row.tangent_priority@.take(3),
            desc.half_extents@ == row.half_extents_reserved@.take(2),
            desc.surface_tolerance == row.position_tolerance[3],
            desc.normal_tolerance_radians == angle,
            desc.priority == row.tangent_priority[3],
    {
        let desc = PlanarReflectorDescriptor {
            position: [
                row.position_tolerance[0],
                row.position_tolerance[1],
                row.position_tolerance[2],
            ],
            normal: [
                row.normal_cos_threshold[0],
                row.normal_cos_threshold[1],
                row.normal_cos_threshold[2],
            ],
            tangent: [row.tangent_priority[0], row.tangent_priority[1], row.tangent_priority[2]],
            half_extents: [row.half_extents_reserved[0], row.half_extents_reserved[1]],
            surface_tolerance: row.position_tolerance[3],
            normal_tolerance_radians: angle,
            priority: row.tangent_priority[3],
        };
        assert(desc.position@ =~= row.position_tolerance@.take(3));
        assert(desc.normal@ =~= row.normal_cos_threshold@.take(3));
        assert(desc.tangent@ =~= row.tangent_priority@.take(3));
        assert(desc.half_extents@ =~= row.half_extents_reserved@.take(2));
        desc
    }
}

fn rejected(reason: &'static str) -> (result: Result<ScenePlanarReflectorRow>)
    ensures
        result == Err::<ScenePlanarReflectorRow, _>(SceneError::InvalidOperation { reason }),
{
    Err(SceneError::InvalidOperation { reason })
}

#[derive(Clone, Copy, Debug)]
pub struct PlanarReflectorRecord {
    pub row: ScenePlanarReflectorRow,
    pub user_tag: u64,
}

/// Live reflectors with the GPU rows that shaders walk.
pub type PlanarReflectors = ProjectedTable<PlanarReflectorId, PlanarReflectorRecord>;

impl Scene {
    /// Inserts a reflector without a tag.
    pub fn insert_planar_reflector(
        &mut self,
        new: NewRow,
        descriptor: PlanarReflectorDescriptor,
        measure: PlanarMeasure,
    ) -> (result: Result<PlanarReflectorId>)
        requires
            old(self).wf(),
            !old(self).planar_reflectors.occupies(new.entity.index),
            new.entity.index < usize::MAX,
            old(self).planar_reflectors.spec_len() < u32::MAX,
        ensures
            final(self).wf(),
            old(self).reflector_inserted(final(self), new, descriptor, measure, 0, result),
    {
        self.insert_planar_reflector_with_tag(new, descriptor, measure, 0)
    }

    /// `after` is `self` with the reflector inserted, or `self` if it is rejected.
    pub open spec fn reflector_inserted(
        &self,
        after: &Scene,
        new: NewRow,
        descriptor: PlanarReflectorDescriptor,
        measure: PlanarMeasure,
        user_tag: u64,
        result: Result<PlanarReflectorId>,
    ) -> bool {
        let id = PlanarReflectorId(new.entity);
        match descriptor.rejection(measure) {
            Some(error) => result == Err::<PlanarReflectorId, _>(error) && *after == *self,
            None => {
                &&& result == Ok::<_, SceneError>(id)
                &&& *after == (Scene { planar_reflectors: after.planar_reflectors, ..*self })
                &&& self.planar_reflectors.inserted(
                    &after.planar_reflectors,
                    id,
                    new.gpu_row,
                    PlanarReflectorRecord { row: descriptor.accepted_row(measure), user_tag },
                )
            },
        }
    }

    /// Inserts a reflector; nothing changes if its descriptor is rejected.
    pub fn insert_planar_reflector_with_tag(
        &mut self,
        new: NewRow,
        descriptor: PlanarReflectorDescriptor,
        measure: PlanarMeasure,
        user_tag: u64,
    ) -> (result: Result<PlanarReflectorId>)
        requires
            old(self).wf(),
            !old(self).planar_reflectors.occupies(new.entity.index),
            new.entity.index < usize::MAX,
            old(self).planar_reflectors.spec_len() < u32::MAX,
        ensures
            final(self).wf(),
            old(self).reflector_inserted(final(self), new, descriptor, measure, user_tag, result),
    {
        let row: ScenePlanarReflectorRow = match descriptor.validated_row(measure) {
            Ok(row) => row,
            Err(error) => {
                return Err(error);
            },
        };
        let id = PlanarReflectorId(new.entity);
        self.planar_reflectors.insert(id, new.gpu_row, PlanarReflectorRecord { row, user_tag });
        Ok(id)
    }

    /// `after` is `self` with another reflector under `id`.
    pub open spec fn reflector_updated(
        &self,
        after: &Scene,
        id: PlanarReflectorId,
        descriptor: PlanarReflectorDescriptor,
        measure: PlanarMeasure,
        result: Result<()>,
    ) -> bool {
        &&& result == if !self.planar_reflectors@.contains_key(id) {
            Err::<(), _>(SceneError::InvalidHandle { resource: "planar reflector" })
        } else {
            match descriptor.rejection(measure) {
                Some(error) => Err(error),
                None => Ok(()),
            }
        }
        &&& *after == (Scene {
            planar_reflectors: after.planar_reflectors,
            ..*self
        })
        &&& if result is Ok {
            self.planar_reflectors.replaced(
                &after.planar_reflectors,
                id,
                (PlanarReflectorRecord {
                    row: descriptor.accepted_row(measure),
                    ..self.planar_reflectors@[id]
                }),
            )
        } else {
            *after == *self
        }
    }

    /// Replaces a reflector. The handle is checked before the descriptor is.
    pub fn update_planar_reflector(
        &mut self,
        id: PlanarReflectorId,
        descriptor: PlanarReflectorDescriptor,
        measure: PlanarMeasure,
    ) -> (result: Result<()>)
        requires
            old(self).wf(),
        ensures
            final(self).wf(),
            old(self).reflector_updated(final(self), id, descriptor, measure, result),
    {
        let user_tag: u64 = match self.planar_reflectors.get(id) {
            Some(record) => record.user_tag,
            None => {
                return Err(invalid("planar reflector"));
            },
        };
        match descriptor.validated_row(measure) {
            Ok(row) => {
                self.planar_reflectors.set(id, PlanarReflectorRecord { row, user_tag });
                Ok(())
            },
            Err(error) => Err(error),
        }
    }

    pub fn remove_planar_reflector(&mut self, id: PlanarReflectorId) -> (result: Result<()>)
        requires
            old(self).wf(),
        ensures
            final(self).wf(),
            result == if old(self).planar_reflectors@.contains_key(id) {
                Ok::<(), SceneError>(())
            } else {
                Err(SceneError::InvalidHandle { resource: "planar reflector" })
            },
            *final(self) == (Scene {
                planar_reflectors: final(self).planar_reflectors,
                ..*old(self)
            }),
            if result is Ok {
                old(self).planar_reflectors.removed(&final(self).planar_reflectors, id)
            } else {
                *final(self) == *old(self)
            },
    {
        if !self.planar_reflectors.remove(id) {
            return Err(invalid("planar reflector"));
        }
        Ok(())
    }

    /// The row of a live reflector.
    pub fn get_planar_reflector(&self, id: PlanarReflectorId) -> (row: Option<
        ScenePlanarReflectorRow,
    >)
        requires
            self.wf(),
        ensures
            row == if self.planar_reflectors@.contains_key(id) {
                Some(self.planar_reflectors@[id].row)
            } else {
                None::<ScenePlanarReflectorRow>
            },
    {
        match self.planar_reflectors.get(id) {
            Some(record) => Some(record.row),
            None => None,
        }
    }

    /// All reflectors with their tags, in compact order.
    pub fn iter_planar_reflectors(&self) -> (list: Vec<
        (PlanarReflectorId, ScenePlanarReflectorRow, u64),
    >)
        requires
            self.wf(),
        ensures
            list@.len() == self.planar_reflectors.spec_len(),
            forall|i: int|
                0 <= i < list@.len() ==> (#[trigger] list@[i]).0
                    == self.planar_reflectors.spec_ids()[i] && list@[i].1
                    == self.planar_reflectors@[list@[i].0].row && list@[i].2
                    == self.planar_reflectors@[list@[i].0].user_tag,
    {
        let mut list: Vec<(PlanarReflectorId, ScenePlanarReflectorRow, u64)> = Vec::new();
        let mut i: usize = 0;
        while i < self.planar_reflectors.records.id_by_slot.len()
            invariant
                0 <= i <= self.planar_reflectors.spec_len(),
                self.planar_reflectors.wf(),
                list@.len() == i,
                forall|j: int|
                    0 <= j < i ==> (#[trigger] list@[j]).0 == self.planar_reflectors.spec_ids()[j]
                        && list@[j].1 == self.planar_reflectors@[list@[j].0].row && list@[j].2
                        == self.planar_reflectors@[list@[j].0].user_tag,
            decreases self.planar_reflectors.spec_len() - i,
        {
            proof {
                self.planar_reflectors.lemma_dense(i as int);
            }
            let id: PlanarReflectorId = self.planar_reflectors.records.id_by_slot[i];
            let record: PlanarReflectorRecord = self.planar_reflectors.records.value_by_slot[i];
            list.push((id, record.row, record.user_tag));
            i = i + 1;
        }
        list
    }

    pub fn planar_reflector_count(&self) -> (count: usize)
        ensures
            count == self.planar_reflectors.spec_len(),
    {
        self.planar_reflectors.len()
    }
}

} // verus!
