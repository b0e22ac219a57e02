//! What a lightmap bake reads of the scene, and where objects stand for picking.
use vstd::prelude::*;

use crate::float_bits::F32;
use crate::handles::{MeshId, ObjectId};
use crate::lights::{GpuLight, LightRecord, NO_SHADOW};
use crate::objects::ObjectRecord;
use crate::references::MeshRecord;
use crate::rows::Movability;
use crate::scene::Scene;
use crate::spaces::Spaces;

verus! {

/// An object as a ray finds it: the model, and the space on top of it unless that is the
/// world's.
#[derive(Clone, Copy, Debug)]
pub struct PickableObject {
    pub id: ObjectId,
    pub mesh_id: MeshId,
    pub model: [F32; 16],
    pub space: Option<[F32; 16]>,
    pub user_tag: u64,
}

/// An object's mesh as it is baked.
#[derive(Clone, Copy, Debug)]
pub struct BakeMesh {
    pub mesh: MeshId,
    pub model: [F32; 16],
    pub space: Option<[F32; 16]>,
    /// Column and row of the atlas cell.
    pub cell: (u32, u32),
}

/// How a light shines. Angles are given by their cosines.
#[derive(Clone, Copy, Debug)]
pub enum BakeLightKind {
    Directional { direction: [F32; 3] },
    Point { position: [F32; 3], range: F32 },
    Spot { position: [F32; 3], direction: [F32; 3], range: F32, inner: F32, outer: F32 },
}

#[derive(Clone, Copy, Debug)]
pub struct BakeLight {
    pub kind: BakeLightKind,
    pub color: [F32; 3],
    pub intensity: F32,
    pub bake_enabled: bool,
    pub casts_shadows: bool,
}

/// The numbers of the light types; zero is a directional light.
#[derive(Clone, Copy, Debug)]
pub struct LightTypes {
    pub point: u32,
    pub spot: u32,
}

/// Everything that is baked, and the grid that the atlas is cut into.
pub struct BakePlan {
    pub meshes: Vec<BakeMesh>,
    pub lights: Vec<BakeLight>,
    pub columns: u32,
    pub rows: u32,
}

impl Spaces {
    /// The matrix that stands on top of an object's model, `None` in the world's space.
    pub open spec fn space_matrix(&self, flags: u32) -> Option<[F32; 16]> {
        let space = self.field.space_of(flags);
        if space == 0 {
            None
        } else {
            Some(self.history.current@[space as int])
        }
    }

    pub fn space_on_top(&self, flags: u32) -> (matrix: Option<[F32; 16]>)
        requires
            self.wf(),
        ensures
            matrix == self.space_matrix(flags),
    {
        let space: u32 = self.field.coordinate_space(flags);
        if space == 0 {
            None
        } else {
            Some(self.history.current[space as usize])
        }
    }
}

/// The objects that are baked: those that cannot move and whose geometry is at hand.
pub open spec fn baked_objects(values: Seq<ObjectRecord>, at_hand: Seq<bool>) -> Seq<ObjectRecord>
    decreases values.len(),
{
    if values.len() == 0 {
        Seq::empty()
    } else {
        let rest = baked_objects(values.drop_last(), at_hand);
        if values.last().movability != Movability::Movable && at_hand[values.len() - 1] {
            rest.push(values.last())
        } else {
            rest
        }
    }
}

/// The first three components.
pub open spec fn first_three(v: [F32; 4]) -> [F32; 3] {
    [v[0], v[1], v[2]]
}

fn three_of(v: &[F32; 4]) -> (r: [F32; 3])
    ensures
        r == first_three(*v),
{
    let r: [F32; 3] = [v[0], v[1], v[2]];
    assert(r@ =~= first_three(*v)@);
    assert(r =~= first_three(*v));
    r
}

/// How a light is baked, `None` if its type is not known.
pub open spec fn bake_light(light: GpuLight, types: LightTypes) -> Option<BakeLight> {
    let position = first_three(light.position_range);
    let direction = first_three(light.direction_outer);
    let range = light.position_range[3];
    let kind = if light.light_type == 0 {
        Some(BakeLightKind::Directional { direction })
    } else if light.light_type == types.point {
        Some(BakeLightKind::Point { position, range })
    } else if light.light_type == types.spot {
        Some(
            BakeLightKind::Spot {
                position,
                direction,
                range,
                inner: light.inner_angle,
                outer: light.direction_outer[3],
            },
        )
    } else {
        None
    };
    match kind {
        Some(kind) => Some(
            BakeLight {
                kind,
                color: first_three(light.color_intensity),
                intensity: light.color_intensity[3],
                bake_enabled: true,
                casts_shadows: light.shadow_index != NO_SHADOW,
            },
        ),
        None => None,
    }
}

/// The lights that are baked: those of known type that never move.
pub open spec fn baked_lights(lights: Seq<LightRecord>, types: LightTypes) -> Seq<BakeLight>
    decreases lights.len(),
{
    if lights.len() == 0 {
        Seq::empty()
    } else {
        let rest = baked_lights(lights.drop_last(), types);
        match bake_light(lights.last().row.spec_authored(), types) {
            Some(light) if lights.last().movability != Movability::Movable => rest.push(light),
            _ => rest,
        }
    }
}

/// Columns of a grid for `n` cells: the least number whose square is no less. One cell
/// fills the atlas.
pub open spec fn is_column_count(columns: int, n: int) -> bool {
    &&& columns >= 1
    &&& columns * columns >= n
    &&& forall|c: int| 1 <= c < columns ==> #[trigger] (c * c) < n
}

/// Rows of a grid for `n` cells, the last of which may be partly empty.
pub open spec fn row_count(n: int, columns: int) -> int {
    if n <= 1 {
        1
    } else {
        (n + columns - 1) / columns
    }
}

fn column_count(n: u32) -> (columns: u32)
    ensures
        is_column_count(columns as int, n as int),
        columns <= 65536,
{
    let mut c: u64 = 1;
    while c * c < n as u64
        invariant
            1 <= c <= 65536,
            forall|d: int| 1 <= d < c ==> #[trigger] (d * d) < n,
            c * c <= 65536 * 65536,
        decreases 65536 - c,
    {
        assert(c < 65536) by (nonlinear_arith)
            requires
                c * c < n,
                n <= u32::MAX,
                c <= 65536,
        ;
        let ghost before = c as int;
        c = c + 1;
        assert(c * c <= 65536 * 65536) by (nonlinear_arith)
            requires
                0 <= c <= 65536,
        ;
        assert forall|d: int| 1 <= d < c implies #[trigger] (d * d) < n by {
            if d == before {
                assert(before * before < n);
            }
        }
    }
    c as u32
}

impl Scene {
    /// `list` holds every object as a ray finds it.
    pub open spec fn can_be_picked(&self, list: Seq<PickableObject>) -> bool {
        &&& list.len() == self.objects.records.spec_len()
        &&& forall|i: int|
            0 <= i < list.len() ==> {
                let record = self.objects.spec_values()[i];
                #[trigger] list[i] == (PickableObject {
                    id: self.objects.records.id_by_slot@[i],
                    mesh_id: record.mesh,
                    model: record.pose.model,
                    space: self.spaces.space_matrix(record.pose.flags),
                    user_tag: record.user_tag,
                })
            }
    }

    /// Every object with what a ray needs of it, in compact order.
    pub fn iter_pickable_objects(&self) -> (list: Vec<PickableObject>)
        requires
            self.wf(),
        ensures
            self.can_be_picked(list@),
    {
        let mut list: Vec<PickableObject> = Vec::new();
        let mut i: usize = 0;
        while i < self.objects.records.id_by_slot.len()
            invariant
                self.wf(),
                0 <= i <= self.objects.records.spec_len(),
                list@.len() == i,
                forall|j: int|
                    0 <= j < i ==> {
                        let record = self.objects.spec_values()[j];
                        #[trigger] list@[j] == (PickableObject {
                            id: self.objects.records.id_by_slot@[j],
                            mesh_id: record.mesh,
                            model: record.pose.model,
                            space: self.spaces.space_matrix(record.pose.flags),
                            user_tag: record.user_tag,
                        })
                    },
            decreases self.objects.records.spec_len() - i,
        {
            let record: ObjectRecord = self.objects.records.value_by_slot[i];
            list.push(
                PickableObject {
                    id: self.objects.records.id_by_slot[i],
                    mesh_id: record.mesh,
                    model: record.pose.model,
                    space: self.spaces.space_on_top(record.pose.flags),
                    user_tag: record.user_tag,
                },
            );
            i = i + 1;
        }
        list
    }

    /// `mesh` bakes `record` in cell `k` of a grid with that many columns.
    pub open spec fn bakes(
        &self,
        mesh: BakeMesh,
        record: ObjectRecord,
        columns: u32,
        k: int,
    ) -> bool {
        &&& mesh.mesh == record.mesh
        &&& mesh.model == record.pose.model
        &&& mesh.space == self.spaces.space_matrix(record.pose.flags)
        &&& mesh.cell.0 == k % columns as int
        &&& mesh.cell.1 == k / columns as int
    }

    /// `plan` is what a bake reads of the scene.
    pub open spec fn bake_planned(
        &self,
        plan: &BakePlan,
        at_hand: Seq<bool>,
        types: LightTypes,
    ) -> bool {
        let baked = baked_objects(self.objects.spec_values(), at_hand);
        &&& plan.meshes@.len() == baked.len()
        &&& is_column_count(plan.columns as int, baked.len() as int)
        &&& plan.rows == row_count(baked.len() as int, plan.columns as int)
        &&& forall|k: int|
            0 <= k < baked.len() ==> self.bakes(
                #[trigger] plan.meshes@[k],
                baked[k],
                plan.columns,
                k,
            )
        &&& plan.lights@ == baked_lights(self.lights.records.value_by_slot@, types)
    }

    /// Collects what a bake reads: the objects that cannot move, each with an atlas cell
    /// of its own, and the lights that cannot move. `at_hand` tells for each object, in
    /// compact order, whether its geometry can be read. The scene counts as baked from
    /// then on.
    #[verifier::spinoff_prover]
    pub fn build_static_bake_scene(&mut self, at_hand: &Vec<bool>, types: LightTypes) -> (plan:
        BakePlan)
        requires
            old(self).wf(),
            at_hand@.len() == old(self).objects.records.spec_len(),
        ensures
            final(self).wf(),
            *final(self) == (Scene { bake_invalidated: false, ..*old(self) }),
            old(self).bake_planned(&plan, at_hand@, types),
    {
        let ghost values = self.objects.spec_values();
        let mut chosen: Vec<ObjectRecord> = Vec::new();
        let mut i: usize = 0;
        while i < self.objects.records.value_by_slot.len()
            invariant
                0 <= i <= values.len(),
                values == self.objects.spec_values(),
                at_hand@.len() == values.len(),
                chosen@ == baked_objects(values.take(i as int), at_hand@),
                chosen@.len() <= i,
            decreases values.len() - i,
        {
            let record: ObjectRecord = self.objects.records.value_by_slot[i];
            proof {
                assert(values.take(i + 1).drop_last() =~= values.take(i as int));
                assert(values.take(i + 1).last() == record);
            }
            if !record.movability.can_move() && at_hand[i] {
                chosen.push(record);
            }
            i = i + 1;
        }
        assert(values.take(i as int) =~= values);
        let n: u32 = chosen.len() as u32;
        let columns: u32 = column_count(n);
        let rows: u32 = if n <= 1 {
            1
        } else {
            let whole: u32 = n / columns;
            proof {
                let q = (n / columns) as int;
                let r = (n % columns) as int;
                let c = columns as int;
                assert(n == q * c + r && 0 <= r < c) by (nonlinear_arith)
                    requires
                        c > 0,
                        q == n as int / c,
                        r == n as int % c,
                ;
                if r == 0 {
                    assert((n + c - 1) / c == q) by (nonlinear_arith)
                        requires
                            n == q * c,
                            c > 0,
                    ;
                } else {
                    assert((n + c - 1) / c == q + 1) by (nonlinear_arith)
                        requires
                            n == q * c + r,
                            0 < r < c,
                    ;
                }
                assert(q <= n) by (nonlinear_arith)
                    requires
                        q == n as int / c,
                        c >= 1,
                        n >= 0,
                ;
                assert(r > 0 ==> q < n) by (nonlinear_arith)
                    requires
                        n == q * c + r,
                        c >= 1,
                        0 <= r < c,
                        q >= 0,
                ;
            }
            if n % columns == 0 {
                whole
            } else {
                whole + 1
            }
        };
        let mut meshes: Vec<BakeMesh> = Vec::new();
        let mut k: usize = 0;
        while k < chosen.len()
            invariant
                self.wf(),
                *self == *old(self),
                columns >= 1,
                chosen@.len() <= u32::MAX,
                0 <= k <= chosen@.len(),
                meshes@.len() == k,
                forall|j: int|
                    0 <= j < k ==> self.bakes(#[trigger] meshes@[j], chosen@[j], columns, j),
            decreases chosen@.len() - k,
        {
            let record: ObjectRecord = chosen[k];
            let place: u32 = k as u32;
            meshes.push(
                BakeMesh {
                    mesh: record.mesh,
                    model: record.pose.model,
                    space: self.spaces.space_on_top(record.pose.flags),
                    cell: (place % columns, place / columns),
                },
            );
            k = k + 1;
        }
        let ghost lit = self.lights.records.value_by_slot@;
        let mut lights: Vec<BakeLight> = Vec::new();
        let mut l: usize = 0;
        while l < self.lights.records.value_by_slot.len()
            invariant
                0 <= l <= lit.len(),
                lit == self.lights.records.value_by_slot@,
                *self == *old(self),
                lights@ == baked_lights(lit.take(l as int), types),
            decreases lit.len() - l,
        {
            let light: GpuLight = self.lights.records.value_by_slot[l].row.authored();
            proof {
                assert(lit.take(l + 1).drop_last() =~= lit.take(l as int));
                assert(lit.take(l + 1).last() == lit[l as int]);
            }
            if !self.lights.records.value_by_slot[l].movability.can_move() {
                match static_light(&light, types) {
                    Some(baked) => {
                        lights.push(baked);
                    },
                    None => {},
                }
            }
            l = l + 1;
        }
        assert(lit.take(l as int) =~= lit);
        self.bake_invalidated = false;
        BakePlan { meshes, lights, columns, rows }
    }

    /// Whether static content changed since the last bake.
    pub fn is_bake_invalidated(&self) -> (invalidated: bool)
        ensures
            invalidated == self.bake_invalidated,
    {
        self.bake_invalidated
    }

    /// Vertices, triangles and number of all live meshes, each counted once.
    pub fn mesh_stats(&self) -> (stats: (u64, u64, usize))
        requires
            self.wf(),
        ensures
            stats.0 == pool_vertices(self.meshes.value_by_slot@),
            stats.1 == pool_indices(self.meshes.value_by_slot@) / 3,
            stats.2 == self.meshes.spec_len(),
    {
        let ghost values = self.meshes.value_by_slot@;
        let mut vertices: u64 = 0;
        let mut indices: u64 = 0;
        let mut i: usize = 0;
        while i < self.meshes.value_by_slot.len()
            invariant
                0 <= i <= values.len(),
                values == self.meshes.value_by_slot@,
                values.len() <= u32::MAX,
                vertices == pool_vertices(values.take(i as int)),
                indices == pool_indices(values.take(i as int)),
                vertices <= i * 0xffff_ffff,
                indices <= i * 0xffff_ffff,
            decreases values.len() - i,
        {
            proof {
                assert(values.take(i + 1).drop_last() =~= values.take(i as int));
                assert(i * 0xffff_ffff + 0xffff_ffff <= 0xffff_ffff * 0xffff_ffff)
                    by (nonlinear_arith)
                    requires
                        i < 0xffff_ffff,
                ;
            }
            vertices = vertices + self.meshes.value_by_slot[i].slice.vertex_count as u64;
            indices = indices + self.meshes.value_by_slot[i].slice.index_count as u64;
            i = i + 1;
        }
        assert(values.take(i as int) =~= values);
        (vertices, indices / 3, self.meshes.len())
    }
}

/// Vertices of all meshes.
pub open spec fn pool_vertices(meshes: Seq<MeshRecord>) -> int
    decreases meshes.len(),
{
    if meshes.len() == 0 {
        0
    } else {
        pool_vertices(meshes.drop_last()) + meshes.last().slice.vertex_count
    }
}

/// Indices of all meshes.
pub open spec fn pool_indices(meshes: Seq<MeshRecord>) -> int
    decreases meshes.len(),
{
    if meshes.len() == 0 {
        0
    } else {
        pool_indices(meshes.drop_last()) + meshes.last().slice.index_count
    }
}

fn static_light(light: &GpuLight, types: LightTypes) -> (baked: Option<BakeLight>)
    ensures
        baked == bake_light(*light, types),
{
    let position: [F32; 3] = three_of(&light.position_range);
    let direction: [F32; 3] = three_of(&light.direction_outer);
    let range: F32 = light.position_range[3];
    let kind: BakeLightKind = if light.light_type == 0 {
        BakeLightKind::Directional { direction }
    } else if light.light_type == types.point {
        BakeLightKind::Point { position, range }
    } else if light.light_type == types.spot {
        BakeLightKind::Spot {
            position,
            direction,
            range,
            inner: light.inner_angle,
            outer: light.direction_outer[3],
        }
    } else {
        return None;
    };
    Some(
        BakeLight {
            kind,
            color: three_of(&light.color_intensity),
            intensity: light.color_intensity[3],
            bake_enabled: true,
            casts_shadows: light.shadow_index != NO_SHADOW,
        },
    )
}

/// No two meshes share an atlas cell, and every cell lies in the grid.
pub proof fn lemma_cells_are_apart(n: int, columns: int, i: int, j: int)
    requires
        is_column_count(columns, n),
        0 <= i < n,
        0 <= j < n,
    ensures
        0 <= i % columns < columns,
        0 <= i / columns < row_count(n, columns),
        i % columns == j % columns && i / columns == j / columns ==> i == j,
{
    let c = columns;
    assert(i == (i / c) * c + i % c && 0 <= i % c < c) by (nonlinear_arith)
        requires
            c > 0,
    ;
    assert(j == (j / c) * c + j % c) by (nonlinear_arith)
        requires
            c > 0,
    ;
    if n > 1 {
        assert(i / c < (n + c - 1) / c) by (nonlinear_arith)
            requires
                0 <= i < n,
                c > 0,
        ;
        assert(i / c >= 0) by (nonlinear_arith)
            requires
                0 <= i,
                c > 0,
        ;
    } else {
        assert(i == 0);
        assert(i / c == 0) by (nonlinear_arith)
            requires
                i == 0,
                c > 0,
        ;
    }
}

/// What can move adds nothing to a bake, be it an object or a light; whatever the bake
/// holds of the others stays.
pub proof fn lemma_what_moves_is_not_baked(
    objects: Seq<ObjectRecord>,
    at_hand: Seq<bool>,
    object: ObjectRecord,
    lights: Seq<LightRecord>,
    light: LightRecord,
    types: LightTypes,
)
    requires
        at_hand.len() > objects.len(),
        object.movability == Movability::Movable,
        light.movability == Movability::Movable,
    ensures
        baked_objects(objects.push(object), at_hand) == baked_objects(objects, at_hand),
        baked_lights(lights.push(light), types) == baked_lights(lights, types),
{
    assert(objects.push(object).drop_last() =~= objects);
    assert(lights.push(light).drop_last() =~= lights);
}

} // verus!
