//! Which water is simulated, and where drops land.
use vstd::prelude::*;

use crate::float_bits::F32;
use crate::handles::WaterVolumeId;
use crate::scene::Scene;
use crate::water_rows::WaterVolumeDescriptor;

verus! {

/// `a` is at most `b`, and both are finite numbers.
pub open spec fn in_order(a: F32, b: F32) -> bool {
    a.spec_is_finite() && b.spec_is_finite() && a.spec_le(b)
}

/// A volume is accepted exactly if the numbers of its simulation are finite, its spring lies
/// between a tenth and two, its damping between nought and one, its waves are no smaller
/// than a hundredth, and neither its clock nor its wind runs backwards.
pub proof fn lemma_accepted_water_can_be_simulated(desc: WaterVolumeDescriptor)
    ensures
        desc.simulates() <==> {
            let zero = F32 { bits: 0 };
            &&& in_order(F32 { bits: 0x3DCC_CCCD }, desc.wave_spring)
            &&& in_order(desc.wave_spring, F32 { bits: 0x4000_0000 })
            &&& in_order(zero, desc.wave_damping)
            &&& in_order(desc.wave_damping, F32 { bits: 0x3F80_0000 })
            &&& in_order(F32 { bits: 0x3C23_D70A }, desc.wave_scale)
            &&& in_order(zero, desc.wave_speed)
            &&& in_order(zero, desc.wind_strength)
            &&& desc.wind_direction[0].spec_is_finite()
            &&& desc.wind_direction[1].spec_is_finite()
        },
{
}

/// A live volume that is simulated has one of eight heightfields, which no other volume has;
/// its target names that, the row of the volume, and since when it has it. A volume that is
/// not simulated found all eight in use.
pub proof fn lemma_simulated_volumes_have_their_own_heightfield(
    scene: Scene,
    a: WaterVolumeId,
    b: WaterVolumeId,
    slot: u32,
)
    requires
        scene.wf(),
        scene.water.volumes@.contains_key(a),
        scene.water.volumes@.contains_key(b),
        a != b,
        slot < 8,
    ensures
        ({
            let place = scene.water.volumes.place(a);
            let own = scene.water.projection.sim_slots@[place];
            &&& scene.sim_target(a) matches Ok(target) ==> {
                &&& target.sim_slot < 8
                &&& target.sim_slot == own
                &&& target.canonical_row == scene.water.projection.active.spec_rows()[place]
                &&& target.residency_generation == scene.water.slot_generations[own as int]
            }
            &&& scene.sim_target(a) is Err <==> own == 0xFFFF_FFFFu32
            &&& scene.sim_target(a) is Err ==> scene.water.projection.sim_slots@.contains(slot)
        }),
        scene.sim_target(a) matches Ok(x) ==> scene.sim_target(b) matches Ok(y) ==> x.sim_slot
            != y.sim_slot,
{
    let water = scene.water;
    water.volumes.lemma_contains(a);
    water.volumes.lemma_contains(b);
    water.projection.active.rows.lemma_contains(a);
    water.projection.active.rows.lemma_contains(b);
    let i = water.volumes.place(a);
    let j = water.volumes.place(b);
    let ids = water.projection.active.spec_ids();
    assert(ids[i] == a && ids[j] == b);
    water.projection.active.rows.lemma_dense(i);
    water.projection.active.rows.lemma_dense(j);
    let slots = water.projection.sim_slots@;
    assert(slots[i] == slots[i] && slots[j] == slots[j]);
    if slots[i] == 0xFFFF_FFFFu32 {
        crate::water_projection::lemma_waiting_means_all_in_use(water.projection, i, slot);
    }
}

/// A drop lands exactly in a live, simulated volume of finite extent whose horizontal bounds
/// hold its centre, and it lands there.
pub proof fn lemma_drop_lands_inside(scene: Scene, id: WaterVolumeId, center: [F32; 2])
    requires
        scene.water.volumes@.contains_key(id),
    ensures
        ({
            let low = scene.water.volumes@[id].row.bounds_min;
            let high = scene.water.volumes@[id].row.bounds_max;
            &&& scene.drop_target(id, center) is Ok <==> {
                &&& scene.sim_target(id) is Ok
                &&& in_order(low[0], center[0])
                &&& in_order(center[0], high[0])
                &&& in_order(low[2], center[1])
                &&& in_order(center[1], high[2])
                &&& low[0].spec_lt(high[0])
                &&& low[2].spec_lt(high[2])
            }
            &&& scene.drop_target(id, center) matches Ok(target) ==> {
                &&& target.world_center == center
                &&& scene.sim_target(id) == crate::errors::Result::Ok(target.simulation)
            }
        }),
{
}

} // verus!
