//! What a bake plan holds of the scene.
use vstd::prelude::*;

use crate::bake::{
    bake_light, baked_lights, baked_objects, is_column_count, lemma_cells_are_apart, row_count,
    BakeLight, BakeLightKind, BakePlan, LightTypes,
};
use crate::float_bits::F32;
use crate::lights::{GpuLight, LightRecord};
use crate::objects::ObjectRecord;
use crate::rows::Movability;
use crate::scene::Scene;

verus! {

/// The three words and the one behind them are those of `whole`.
pub open spec fn splits(whole: [F32; 4], three: [F32; 3], last: F32) -> bool {
    &&& three[0] == whole[0]
    &&& three[1] == whole[1]
    &&& three[2] == whole[2]
    &&& last == whole[3]
}

/// The baked light is the stored one: its numbers are those of the row, each where it
/// belongs, and its kind is that of the row's type.
pub open spec fn bakes_light(baked: BakeLight, record: LightRecord, types: LightTypes) -> bool {
    let row = record.row;
    &&& splits(row.color_intensity, baked.color, baked.intensity)
    &&& baked.bake_enabled
    &&& baked.casts_shadows <==> row.shadow_requested != 0xFFFF_FFFFu32
    &&& match baked.kind {
        BakeLightKind::Directional { direction } => {
            &&& row.light_type == 0
            &&& splits(row.direction_outer, direction, row.direction_outer[3])
        },
        BakeLightKind::Point { position, range } => {
            &&& row.light_type == types.point
            &&& row.light_type != 0
            &&& splits(row.position_range, position, range)
        },
        BakeLightKind::Spot { position, direction, range, inner, outer } => {
            &&& row.light_type == types.spot
            &&& row.light_type != 0
            &&& row.light_type != types.point
            &&& splits(row.position_range, position, range)
            &&& splits(row.direction_outer, direction, outer)
            &&& inner == row.inner_angle
        },
    }
}

/// The light stands still and its type is known.
pub open spec fn can_be_baked(record: LightRecord, types: LightTypes) -> bool {
    &&& !(record.movability is Movable)
    &&& record.row.light_type == 0 || record.row.light_type == types.point
        || record.row.light_type == types.spot
}

/// `from` picks places of a list of length `n`, in order.
pub open spec fn picks(from: Seq<int>, n: int) -> bool {
    &&& forall|k: int| 0 <= k < from.len() ==> 0 <= #[trigger] from[k] < n
    &&& forall|k: int, l: int|
        0 <= k < l < from.len() ==> #[trigger] from[k] < #[trigger] from[l]
}

/// A bake light gives back what was authored: colour and intensity, position and range,
/// direction and outer angle, each word in its place.
pub proof fn lemma_baked_light_gives_back_what_was_authored(
    light: GpuLight,
    types: LightTypes,
    baked: BakeLight,
)
    requires
        bake_light(light, types) == Some(baked),
    ensures
        splits(light.color_intensity, baked.color, baked.intensity),
        baked.casts_shadows <==> light.shadow_index != 0xFFFF_FFFFu32,
        baked.bake_enabled,
        match baked.kind {
            BakeLightKind::Directional { direction } => light.light_type == 0 && splits(
                light.direction_outer,
                direction,
                light.direction_outer[3],
            ),
            BakeLightKind::Point { position, range } => light.light_type == types.point && splits(
                light.position_range,
                position,
                range,
            ),
            BakeLightKind::Spot { position, direction, range, inner, outer } => light.light_type
                == types.spot && splits(light.position_range, position, range) && splits(
                light.direction_outer,
                direction,
                outer,
            ) && inner == light.inner_angle,
        },
{
}

/// The plan holds each light that stands still and whose type is known, in order and as it
/// is stored, and no other.
pub proof fn lemma_still_lights_are_baked(
    scene: Scene,
    plan: BakePlan,
    at_hand: Seq<bool>,
    types: LightTypes,
) -> (from: Seq<int>)
    requires
        scene.bake_planned(&plan, at_hand, types),
    ensures
        ({
            let lights = scene.lights.records.value_by_slot@;
            &&& from.len() == plan.lights@.len()
            &&& picks(from, lights.len() as int)
            &&& forall|k: int|
                0 <= k < from.len() ==> can_be_baked(lights[#[trigger] from[k]], types)
                    && bakes_light(plan.lights@[k], lights[from[k]], types)
            &&& forall|i: int|
                0 <= i < lights.len() && can_be_baked(#[trigger] lights[i], types)
                    ==> from.contains(i)
        }),
{
    lemma_lights_from(scene.lights.records.value_by_slot@, types)
}

proof fn lemma_lights_from(lights: Seq<LightRecord>, types: LightTypes) -> (from: Seq<int>)
    ensures
        ({
            let baked = baked_lights(lights, types);
            &&& from.len() == baked.len()
            &&& picks(from, lights.len() as int)
            &&& forall|k: int|
                0 <= k < from.len() ==> can_be_baked(lights[#[trigger] from[k]], types)
                    && bakes_light(baked[k], lights[from[k]], types)
            &&& forall|i: int|
                0 <= i < lights.len() && can_be_baked(#[trigger] lights[i], types)
                    ==> from.contains(i)
        }),
    decreases lights.len(),
{
    if lights.len() == 0 {
        Seq::empty()
    } else {
        let rest = lights.drop_last();
        let earlier = lemma_lights_from(rest, types);
        let last = lights.len() - 1;
        let baked = baked_lights(lights, types);
        let from = if can_be_baked(lights[last], types) {
            earlier.push(last)
        } else {
            earlier
        };
        assert forall|k: int| 0 <= k < from.len() implies can_be_baked(
            lights[#[trigger] from[k]],
            types,
        ) && bakes_light(baked[k], lights[from[k]], types) by {
            if k < earlier.len() {
                assert(earlier[k] == from[k]);
                assert(rest[from[k]] == lights[from[k]]);
                assert(baked_lights(rest, types)[k] == baked[k]);
            }
        }
        assert forall|i: int|
            0 <= i < lights.len() && can_be_baked(#[trigger] lights[i], types) implies from.contains(
            i,
        ) by {
            if i < last {
                assert(rest[i] == lights[i]);
                assert(earlier.contains(i));
                let k = earlier.index_of(i);
                assert(from[k] == i);
            } else {
                assert(from[from.len() - 1] == i);
            }
        }
        from
    }
}

/// The object cannot move and its geometry can be read.
pub open spec fn object_can_be_baked(record: ObjectRecord, at_hand: bool) -> bool {
    !(record.movability is Movable) && at_hand
}

/// The plan holds each object that cannot move and whose geometry is at hand, in order,
/// with its mesh and where it stands, and no other.
pub proof fn lemma_still_objects_are_baked(
    scene: Scene,
    plan: BakePlan,
    at_hand: Seq<bool>,
    types: LightTypes,
) -> (from: Seq<int>)
    requires
        scene.bake_planned(&plan, at_hand, types),
        at_hand.len() == scene.objects.spec_values().len(),
    ensures
        ({
            let objects = scene.objects.spec_values();
            &&& from.len() == plan.meshes@.len()
            &&& picks(from, objects.len() as int)
            &&& forall|k: int|
                0 <= k < from.len() ==> {
                    let object = objects[#[trigger] from[k]];
                    let row = (object.pose.flags >> scene.spaces.field.shift) & ((
                    scene.spaces.field.capacity - 1) as u32);
                    &&& object_can_be_baked(object, at_hand[from[k]])
                    &&& plan.meshes@[k].mesh == object.mesh
                    &&& plan.meshes@[k].model == object.pose.model
                    &&& row == 0 ==> plan.meshes@[k].space is None
                    &&& row != 0 ==> plan.meshes@[k].space == Some(
                        scene.spaces.history.current@[row as int],
                    )
                }
            &&& forall|i: int|
                0 <= i < objects.len() && object_can_be_baked(#[trigger] objects[i], at_hand[i])
                    ==> from.contains(i)
        }),
{
    let objects = scene.objects.spec_values();
    let from = lemma_objects_from(objects, at_hand);
    assert forall|k: int| 0 <= k < from.len() implies {
        let object = objects[#[trigger] from[k]];
        let row = (object.pose.flags >> scene.spaces.field.shift) & ((scene.spaces.field.capacity
            - 1) as u32);
        &&& plan.meshes@[k].mesh == object.mesh
        &&& plan.meshes@[k].model == object.pose.model
        &&& row == 0 ==> plan.meshes@[k].space is None
        &&& row != 0 ==> plan.meshes@[k].space == Some(scene.spaces.history.current@[row as int])
    } by {
        let record = baked_objects(objects, at_hand)[k];
        assert(scene.bakes(plan.meshes@[k], record, plan.columns, k));
    }
    from
}

proof fn lemma_objects_from(objects: Seq<ObjectRecord>, at_hand: Seq<bool>) -> (from: Seq<int>)
    requires
        at_hand.len() >= objects.len(),
    ensures
        ({
            let baked = baked_objects(objects, at_hand);
            &&& from.len() == baked.len()
            &&& picks(from, objects.len() as int)
            &&& forall|k: int|
                0 <= k < from.len() ==> object_can_be_baked(
                    objects[#[trigger] from[k]],
                    at_hand[from[k]],
                ) && baked[k] == objects[from[k]]
            &&& forall|i: int|
                0 <= i < objects.len() && object_can_be_baked(#[trigger] objects[i], at_hand[i])
                    ==> from.contains(i)
        }),
    decreases objects.len(),
{
    if objects.len() == 0 {
        Seq::empty()
    } else {
        let rest = objects.drop_last();
        let earlier = lemma_objects_from(rest, at_hand);
        let last = objects.len() - 1;
        let baked = baked_objects(objects, at_hand);
        let from = if object_can_be_baked(objects[last], at_hand[last]) {
            earlier.push(last)
        } else {
            earlier
        };
        assert forall|k: int| 0 <= k < from.len() implies object_can_be_baked(
            objects[#[trigger] from[k]],
            at_hand[from[k]],
        ) && baked[k] == objects[from[k]] by {
            if k < earlier.len() {
                assert(earlier[k] == from[k]);
                assert(rest[from[k]] == objects[from[k]]);
                assert(baked_objects(rest, at_hand)[k] == baked[k]);
            }
        }
        assert forall|i: int|
            0 <= i < objects.len() && object_can_be_baked(
                #[trigger] objects[i],
                at_hand[i],
            ) implies from.contains(i) by {
            if i < last {
                assert(rest[i] == objects[i]);
                assert(earlier.contains(i));
                let k = earlier.index_of(i);
                assert(from[k] == i);
            } else {
                assert(from[from.len() - 1] == i);
            }
        }
        from
    }
}

/// The cells of a plan are filled row by row: every mesh has a cell of its own, in the grid,
/// and the grid has no more columns than a square needs and no row too many.
pub proof fn lemma_cells_are_filled_row_by_row(
    scene: Scene,
    plan: BakePlan,
    at_hand: Seq<bool>,
    types: LightTypes,
    k: int,
    l: int,
)
    requires
        scene.bake_planned(&plan, at_hand, types),
        0 <= k < plan.meshes@.len(),
        0 <= l < plan.meshes@.len(),
    ensures
        k != l ==> plan.meshes@[k].cell != plan.meshes@[l].cell,
        plan.meshes@[k].cell.0 < plan.columns,
        plan.meshes@[k].cell.1 < plan.rows,
        plan.meshes@[k].cell.1 * plan.columns + plan.meshes@[k].cell.0 == k,
        plan.columns * plan.columns >= plan.meshes@.len(),
        (plan.columns - 1) * (plan.columns - 1) < plan.meshes@.len(),
        plan.columns * plan.rows >= plan.meshes@.len(),
        plan.columns * (plan.rows - 1) < plan.meshes@.len(),
{
    let n = plan.meshes@.len() as int;
    let c = plan.columns as int;
    let r = plan.rows as int;
    let baked = baked_objects(scene.objects.spec_values(), at_hand);
    assert(scene.bakes(plan.meshes@[k], baked[k], plan.columns, k));
    assert(scene.bakes(plan.meshes@[l], baked[l], plan.columns, l));
    lemma_cells_are_apart(n, c, k, l);
    assert((k / c) * c + k % c == k) by (nonlinear_arith)
        requires
            c > 0,
    ;
    assert(c == 1 || (c - 1) * (c - 1) < n);
    assert((c - 1) * (c - 1) < n) by (nonlinear_arith)
        requires
            c == 1 || (c - 1) * (c - 1) < n,
            n > 0,
    ;
    if n == 1 {
        assert(c == 1) by {
            if c > 1 {
                assert(1int * 1 < n);
            }
        }
    }
    assert(r == (n + c - 1) / c);
    assert(c * r >= n && c * (r - 1) < n) by (nonlinear_arith)
        requires
            r == (n + c - 1) / c,
            c > 0,
            n > 0,
    ;
}

} // verus!
