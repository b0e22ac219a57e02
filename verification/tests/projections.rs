//! Compact projections, selections and the small formulas under them.
use helio::decals::DecalProjection;
use helio::draws::{
    build_draw_lists, build_material_ranges, render_bucket, shadow_key,
    shadow_movable_partition_changed, DrawEntry, DrawIndexedIndirectArgs, GpuDrawCall,
    MaterialFlagBits, MaterialRangeKey, MeshSlice, ObjectSortKey, RenderBucket,
};
use helio::entity_projection::EntityRowProjection;
use helio::float_bits::F32;
use helio::groups::{GroupId, GroupMask};
use helio::handles::{
    DecalId, Entity, Handle, LightId, MaterialId, MeshId, ReflectionCaptureId, WaterVolumeId,
};
use helio::light_projection::{stable_shadow_assignments, LightProjection};
use helio::lights::{light_row, shadow_budget_changed, GpuLight};
use helio::objects::{object_gpu_data, ObjectDescriptor};
use helio::portal_chains::build_portal_chains;
use helio::reflection_projection::ReflectionProjection;
use helio::selection::{
    select_post_process_volume_rows, select_resident_reflection_projections,
    MAX_POST_PROCESS_VOLUME_PROJECTIONS, MAX_REFLECTION_CAPTURE_PROJECTIONS,
};
use helio::shadow_budget::{directional_camera_shadow_hash, fnv1a_f32s};
use helio::spaces::{identity_matrix, reachability, PortalRecord};
use helio::terrain::{
    hash, BrickRange, VoxelTerrain, MAT_AIR, MAT_DIRT, MAT_GRASS, MAT_ORE, MAT_STONE,
};
use helio::virtual_geometry::include_dirty_instance;
use helio::voxel_mesh_projection::{VoxelMeshProjection, VoxelMeshProjectionError};
use helio::water_projection::{
    WaterVolumeProjection, WATER_SIM_SLOT_COUNT, WATER_SIM_SLOT_UNASSIGNED,
};

fn f(x: f32) -> F32 {
    F32 { bits: x.to_bits() }
}

#[test]
fn swap_remove_repairs_sparse_lookup_and_stale_generation() {
    let mut projection = DecalProjection::new();
    let first = DecalId::from_raw(11, 3);
    let middle = DecalId::from_raw(2, 4);
    let last = DecalId::from_raw(80, 1);

    assert_eq!(projection.insert(first, 11), 0);
    assert_eq!(projection.insert(middle, 3), 1);
    assert_eq!(projection.insert(last, 8), 2);
    assert_eq!(projection.remove(middle), Some(1));
    assert_eq!(projection.rows(), &[11, 8]);
    assert_eq!(projection.slot(last), Some(1));
    assert_eq!(projection.slot(DecalId::from_raw(last.slot(), 0)), None);
}

#[test]
fn swap_remove_repairs_handle_lookup_without_conflating_gpu_rows() {
    let mut projection = EntityRowProjection::new();
    let first = WaterVolumeId::from_raw(9, 1);
    let middle = WaterVolumeId::from_raw(40, 2);
    let last = WaterVolumeId::from_raw(3, 7);

    assert_eq!(projection.insert(first, 2), 0);
    assert_eq!(projection.insert(middle, 99), 1);
    assert_eq!(projection.insert(last, 4), 2);
    assert_eq!(projection.remove(middle), Some(1));
    assert_eq!(projection.ids(), &[first, last]);
    assert_eq!(projection.rows(), &[2, 4]);
    assert_eq!(projection.slot(last), Some(1));
    assert_eq!(projection.slot(WaterVolumeId::from_raw(last.slot(), 6)), None);
}

#[test]
fn removing_an_absent_handle_changes_nothing() {
    let mut projection = EntityRowProjection::new();
    assert!(projection.is_empty());
    let kept = WaterVolumeId::from_raw(4, 2);
    projection.insert(kept, 17);
    assert_eq!(projection.remove(WaterVolumeId::from_raw(4, 1)), None);
    assert_eq!(projection.remove(WaterVolumeId::from_raw(400, 1)), None);
    assert_eq!(projection.ids(), &[kept]);
    assert_eq!(projection.row(0), Some(17));
    assert_eq!(projection.row(1), None);
    assert_eq!(projection.len(), 1);
}

#[test]
fn swap_remove_repairs_both_directions_and_rejects_stale_generation() {
    let mut projection = LightProjection::new();
    let first = LightId::from_raw(9, 1);
    let middle = LightId::from_raw(40, 2);
    let last = LightId::from_raw(3, 7);

    assert_eq!(projection.insert(first, 12), 0);
    assert_eq!(projection.insert(middle, 2), 1);
    assert_eq!(projection.insert(last, 7), 2);
    assert_eq!(projection.remove(middle), Some(1));
    assert_eq!(projection.ids(), &[first, last]);
    assert_eq!(projection.row(1), Some(7));
    assert_eq!(projection.slot(last), Some(1));
    assert_eq!(projection.slot(LightId::from_raw(last.slot(), 6)), None);
}

#[test]
fn a_projection_lists_what_was_inserted_and_not_removed_since() {
    let id = WaterVolumeId::from_raw;
    let mut projection = EntityRowProjection::new();
    for (slot, row) in [(4, 0), (9, 1), (2, 2), (7, 3)] {
        projection.insert(id(slot, 1), row);
    }
    assert_eq!(projection.ids(), &[id(4, 1), id(9, 1), id(2, 1), id(7, 1)]);
    assert_eq!(projection.remove(id(9, 1)), Some(1));
    assert_eq!(projection.remove(id(9, 1)), None);
    projection.insert(id(9, 2), 1);
    assert_eq!(projection.remove(id(4, 1)), Some(0));
    projection.insert(id(4, 1), 0);
    assert_eq!(projection.ids(), &[id(9, 2), id(7, 1), id(2, 1), id(4, 1)]);
    assert_eq!(projection.rows(), &[1, 3, 2, 0]);
}

#[test]
fn light_membership_changes_ask_for_one_rerank() {
    let mut projection = LightProjection::new();
    assert!(!projection.take_atlas_dirty());
    projection.insert(LightId::from_raw(1, 1), 5);
    assert!(projection.take_atlas_dirty());
    assert!(!projection.take_atlas_dirty());
    projection.mark_atlas_dirty();
    assert!(projection.take_atlas_dirty());
    assert_eq!(projection.remove(LightId::from_raw(1, 2)), None);
    assert!(!projection.take_atlas_dirty());
    assert_eq!(projection.remove(LightId::from_raw(1, 1)), Some(0));
    assert!(projection.take_atlas_dirty());
    assert_eq!(projection.len(), 0);
}

#[test]
fn continuing_winners_keep_atlas_bases_when_an_earlier_winner_exits() {
    let previous = [[10, 0], [11, 6], [12, 12], [13, u32::MAX]];
    let scores = [(f(30.0), 1), (f(20.0), 2), (f(10.0), 3)];
    assert_eq!(
        stable_shadow_assignments(4, &scores, &previous, 3),
        vec![u32::MAX, 6, 12, 0]
    );
}

#[test]
fn new_winners_share_out_free_bases_by_slot() {
    let scores = [(f(9.0), 2), (f(8.0), 0)];
    assert_eq!(stable_shadow_assignments(3, &scores, &[], 2), vec![0, u32::MAX, 6]);
    // A base out of step with the face stride, or past the last caster, is not kept.
    let previous = [[1, 5], [2, u32::MAX], [3, 12]];
    assert_eq!(stable_shadow_assignments(3, &scores, &previous, 2), vec![0, u32::MAX, 6]);
    assert_eq!(
        stable_shadow_assignments(2, &[], &[[1, 0]], 2),
        vec![u32::MAX, u32::MAX]
    );
}

#[test]
fn lights_with_scores_that_are_no_numbers_take_part() {
    assert_eq!(
        stable_shadow_assignments(2, &[(f(f32::NAN), 1)], &[], 1),
        vec![u32::MAX, 0]
    );
    // Among scores that are no numbers the lower slot wins.
    let scores = [(f(f32::NAN), 2), (f(-f32::NAN), 0), (f(f32::NAN), 1)];
    assert_eq!(stable_shadow_assignments(3, &scores, &[], 2), vec![0, 6, u32::MAX]);
    // One of them goes by its slot where that agrees with the others.
    let scores = [(f(1.0), 3), (f(f32::NAN), 1), (f(5.0), 0)];
    assert_eq!(
        stable_shadow_assignments(4, &scores, &[], 2),
        vec![0, 6, u32::MAX, u32::MAX]
    );
    // Where no ranking agrees, everyone still wins if there is room.
    let scores = [(f(1.0), 0), (f(f32::NAN), 1), (f(2.0), 2)];
    assert_eq!(stable_shadow_assignments(3, &scores, &[], 3), vec![0, 6, 12]);
}

#[test]
fn projection_preserves_layers_through_swap_remove() {
    let first = ReflectionCaptureId::from_raw(5, 1);
    let middle = ReflectionCaptureId::from_raw(42, 2);
    let last = ReflectionCaptureId::from_raw(3, 7);
    let mut projection = ReflectionProjection::new();
    projection.insert(first, 4);
    projection.insert(middle, 9);
    projection.insert(last, 2);
    assert!(projection.set_layer(first, 11));
    assert!(projection.set_layer(last, 17));

    assert!(projection.remove(middle));
    assert_eq!(projection.layer(first), Some(11));
    assert_eq!(projection.layer(last), Some(17));
    assert_eq!(projection.rows(), &[4, 2]);
}

#[test]
fn a_new_capture_has_no_layer_and_a_stale_one_gets_none() {
    let id = ReflectionCaptureId::from_raw(5, 2);
    let stale = ReflectionCaptureId::from_raw(5, 1);
    let mut projection = ReflectionProjection::new();
    projection.insert(id, 4);
    assert_eq!(projection.layer(id), Some(-1));
    assert_eq!(projection.layer(stale), None);
    assert!(!projection.set_layer(stale, 3));
    assert!(!projection.remove(stale));
    assert_eq!(projection.layer(id), Some(-1));
    assert_eq!(projection.len(), 1);
}

#[test]
fn unbaked_captures_are_filtered_before_the_shader_cap() {
    let mut candidates = (0..MAX_REFLECTION_CAPTURE_PROJECTIONS)
        .map(|row| (f(row as f32), row as u32, -1))
        .collect::<Vec<_>>();
    candidates.push((f(10_000.0), 777, 3));

    let (selected, overflow) = select_resident_reflection_projections(&candidates);

    assert_eq!(overflow, 0);
    assert_eq!(selected, vec![[777, 3]]);
}

#[test]
fn resident_capture_projection_keeps_the_64_smallest_influences() {
    let candidates = (0..=MAX_REFLECTION_CAPTURE_PROJECTIONS)
        .rev()
        .map(|row| (f(row as f32), row as u32, row as i32))
        .collect::<Vec<_>>();

    let (selected, overflow) = select_resident_reflection_projections(&candidates);

    assert_eq!(overflow, 1);
    assert_eq!(selected.len(), MAX_REFLECTION_CAPTURE_PROJECTIONS);
    assert_eq!(selected.first(), Some(&[0, 0]));
    assert_eq!(selected.last(), Some(&[63, 63]));
}

#[test]
fn equal_influences_are_ordered_by_row() {
    let candidates = vec![(f(2.0), 9, 1), (f(2.0), 4, 2), (f(1.0), 30, 0)];
    let (selected, overflow) = select_resident_reflection_projections(&candidates);
    assert_eq!(overflow, 0);
    assert_eq!(selected, vec![[30, 0], [4, 2], [9, 1]]);
}

#[test]
fn shader_projection_keeps_highest_priorities_with_a_stable_row_tie_break() {
    let mut candidates = (0..=MAX_POST_PROCESS_VOLUME_PROJECTIONS)
        .map(|row| (f(row as f32), row as u32))
        .collect::<Vec<_>>();
    candidates.extend([(f(10_000.0), 900), (f(10_000.0), 800)]);

    let (selected, overflow) = select_post_process_volume_rows(&candidates);

    assert_eq!(selected.len(), MAX_POST_PROCESS_VOLUME_PROJECTIONS);
    assert_eq!(overflow, 3);
    assert_eq!(&selected[..2], &[800, 900]);
    assert!(selected.contains(&256));
    assert!(!selected.contains(&0));
}

#[test]
fn material_ranges_do_not_merge_distinct_render_buckets() {
    let keys = [
        MaterialRangeKey {
            class: 7,
            graph_hash: 11,
            bucket: RenderBucket::Opaque,
        },
        MaterialRangeKey {
            class: 7,
            graph_hash: 11,
            bucket: RenderBucket::Transparent,
        },
        MaterialRangeKey {
            class: 7,
            graph_hash: 11,
            bucket: RenderBucket::Forward,
        },
    ];
    let (opaque, transparent, forward) = build_material_ranges(&keys);
    assert_eq!(opaque, vec![(7, 11, 0, 1)]);
    assert_eq!(transparent, vec![(7, 11, 1, 1)]);
    assert_eq!(forward, vec![(7, 11, 2, 1)]);
}

#[test]
fn material_ranges_join_equal_neighbours_only() {
    let key = |class, bucket| MaterialRangeKey { class, graph_hash: 1, bucket };
    let keys = [
        key(2, RenderBucket::Opaque),
        key(2, RenderBucket::Opaque),
        key(3, RenderBucket::Opaque),
        key(2, RenderBucket::Opaque),
    ];
    let (opaque, transparent, forward) = build_material_ranges(&keys);
    assert_eq!(opaque, vec![(2, 1, 0, 2), (3, 1, 2, 1), (2, 1, 3, 1)]);
    assert!(transparent.is_empty());
    assert!(forward.is_empty());
    let (opaque, _, _) = build_material_ranges(&[]);
    assert!(opaque.is_empty());
}

#[test]
fn material_flags_choose_the_bucket() {
    let bits = MaterialFlagBits { forward_shading: 1, transparent_only: 2, alpha_test: 4 };
    assert_eq!(render_bucket(0, bits), RenderBucket::Opaque);
    assert_eq!(render_bucket(1, bits), RenderBucket::Forward);
    assert_eq!(render_bucket(2, bits), RenderBucket::Transparent);
    assert_eq!(render_bucket(2 | 4, bits), RenderBucket::Transparent);
    assert_eq!(render_bucket(1 | 2, bits), RenderBucket::Forward);
    assert_eq!(render_bucket(4, bits), RenderBucket::Opaque);
}

#[test]
fn objects_of_one_mesh_and_material_share_a_draw() {
    let entry = |mesh_row: u32, gpu_row: u32, groups: GroupMask| DrawEntry {
        key: ObjectSortKey {
            class: 0,
            graph_hash: 0,
            bucket: RenderBucket::Opaque,
            mesh_row,
            material_row: 3,
        },
        gpu_row,
        groups,
        slice: MeshSlice {
            first_vertex: mesh_row * 10,
            vertex_count: 10,
            first_index: mesh_row * 100,
            index_count: 36,
        },
    };
    let hidden = GroupMask::from_id(GroupId(5));
    let entries = vec![
        entry(2, 20, GroupMask::none()),
        entry(1, 10, hidden),
        entry(2, 21, GroupMask::none()),
    ];
    let lists = build_draw_lists(&entries, hidden);
    assert_eq!(lists.order, vec![1, 0, 2]);
    assert_eq!(lists.source_indices, vec![10, 20, 21]);
    assert_eq!(lists.visibility, vec![0, 1, 1]);
    assert_eq!(
        lists.draw_calls,
        vec![
            GpuDrawCall {
                index_count: 36,
                first_index: 100,
                vertex_offset: 10,
                first_instance: 0,
                instance_count: 1,
            },
            GpuDrawCall {
                index_count: 36,
                first_index: 200,
                vertex_offset: 20,
                first_instance: 1,
                instance_count: 2,
            },
        ]
    );
    assert_eq!(lists.indirect.len(), 2);
    assert_eq!(lists.indirect[1].instance_count, 2);
    assert_eq!(lists.draw_material_rows, vec![3, 3]);
    assert_eq!(lists.opaque_ranges, vec![(0, 0, 0, 2)]);
}

#[test]
fn shadow_keys_order_by_slot_before_generation() {
    assert!(shadow_key(1, 9).less(shadow_key(2, 0)));
    assert!(shadow_key(2, 0).less(shadow_key(2, 1)));
    assert!(!shadow_key(2, 1).less(shadow_key(2, 1)));
}

#[test]
fn shadow_topology_includes_indirect_command_changes() {
    let sources = [4, 9];
    let old = [DrawIndexedIndirectArgs {
        index_count: 12,
        instance_count: 2,
        first_index: 3,
        base_vertex: 7,
        first_instance: 0,
    }];
    let mut changed = old;
    changed[0].first_index = 5;

    assert!(shadow_movable_partition_changed(&sources, &sources, &old, &changed));
    assert!(!shadow_movable_partition_changed(&sources, &sources, &old, &old));
    assert!(shadow_movable_partition_changed(&sources, &[4], &old, &old));
}

fn lamp() -> GpuLight {
    GpuLight {
        position_range: [f(1.0), f(2.0), f(3.0), f(10.0)],
        direction_outer: [f(0.0); 4],
        color_intensity: [f(1.0), f(1.0), f(1.0), f(4.0)],
        inner_angle: f(0.0),
        light_type: 1,
        shadow_index: 0,
        shading: [0; 8],
    }
}

#[test]
fn only_shadow_budget_inputs_request_an_atlas_rerank() {
    let original = light_row(lamp());

    let mut cosmetic = original;
    cosmetic.shading[0] = 2.0f32.to_bits();
    cosmetic.position_range[0] = f(9.0);
    assert!(!shadow_budget_changed(&original, &cosmetic));

    let mut score = original;
    score.position_range[3] = f(20.0);
    assert!(shadow_budget_changed(&original, &score));

    let mut eligibility = original;
    eligibility.shadow_requested = u32::MAX;
    assert!(shadow_budget_changed(&original, &eligibility));

    let mut directional = original;
    directional.light_type = 0;
    assert!(shadow_budget_changed(&original, &directional));
}

#[test]
fn a_light_row_stores_only_the_wish_for_a_shadow() {
    let mut light = lamp();
    light.shadow_index = 5;
    let row = light_row(light);
    assert!(row.requests_shadow());
    assert_eq!(row.authored().shadow_index, 0);
    light.shadow_index = u32::MAX;
    let row = light_row(light);
    assert!(!row.requests_shadow());
    assert_eq!(row.authored().shadow_index, u32::MAX);
    assert_eq!(row.authored().position_range, light.position_range);
}

#[test]
fn object_render_row_uses_resolved_material_gpu_row() {
    let material = MaterialId::from_raw(41, 7);
    let record = object_gpu_data(
        ObjectDescriptor {
            mesh: MeshId::from_raw(3, 2),
            material,
            transform: identity_matrix(),
            bounds: [f(0.0); 4],
            flags: 0,
            groups: GroupMask::none(),
            movability: None,
            user_tag: 0,
        },
        [f(0.0); 12],
        5,
        9,
    );

    assert_eq!(record.material_row, 5);
    assert_ne!(record.material_row, material.slot());
}

fn colocated_record(row: u32) -> PortalRecord {
    PortalRecord {
        a: identity_matrix(),
        b: identity_matrix(),
        half_extent: [f(2.0); 2],
        a_inverse: identity_matrix(),
        pair_map_inverse: identity_matrix(),
        row,
    }
}

#[test]
fn portal_chain_budget_is_exact_instead_of_silently_truncated() {
    let chains = |count: u32| {
        let records = (1..=count).map(colocated_record).collect::<Vec<_>>();
        let locals = vec![vec![[f(0.0); 3]; count as usize]; count as usize];
        build_portal_chains(&reachability(&records, &locals), count)
    };
    let six = chains(6).expect("6 + 36 + 216 chains fit");
    assert_eq!(six.len(), 258);
    assert_eq!(six[0].portals, [0, 0, 0]);
    assert_eq!(six[0].depth, 1);
    assert!(
        chains(7).is_none(),
        "7 + 49 + 343 chains must report the 300-row overflow"
    );
}

#[test]
fn a_portal_that_leads_nowhere_ends_its_chains() {
    let records = vec![colocated_record(1), colocated_record(2)];
    // Nothing stands before the opening of the second portal.
    let far = [f(0.0), f(0.0), f(-50.0)];
    let beside = [f(9.0), f(0.0), f(0.0)];
    let locals = vec![vec![beside, beside], vec![far, beside]];
    let reach = reachability(&records, &locals);
    let chains = build_portal_chains(&reach, 2).expect("few chains");
    assert!(chains.iter().all(|chain| chain.depth >= 1 && chain.depth <= 3));
    assert!(chains.iter().any(|chain| chain.depth == 1 && chain.portals[0] == 0));
    assert!(chains.iter().any(|chain| chain.depth == 1 && chain.portals[0] == 1));
}

/// A projection shifted in clip space, as temporal jitter shifts it.
fn shifted(projection: [F32; 16], jitter: [f32; 2]) -> [F32; 16] {
    let mut matrix = projection;
    for column in 0..4 {
        let w = f32::from_bits(matrix[4 * column + 3].bits);
        for axis in 0..2 {
            let at = 4 * column + axis;
            matrix[at] = f(f32::from_bits(matrix[at].bits) + jitter[axis] * w);
        }
    }
    matrix
}

#[test]
fn directional_shadow_gate_ignores_temporal_jitter_but_tracks_frustum_changes() {
    let view = [f(0.37); 16];
    let scaled = |x: f32| {
        let mut scale = identity_matrix();
        scale[0] = f(x);
        scale[5] = f(1.83);
        scale[10] = f(0.79);
        scale
    };
    let hash = |projection: [F32; 16], jitter: [f32; 2]| {
        let jittered = shifted(projection, jitter);
        let undone = shifted(jittered, [-jitter[0], -jitter[1]]);
        directional_camera_shadow_hash(&view, &undone)
    };
    let a = hash(scaled(1.17), [0.000_31, -0.000_47]);
    let b = hash(scaled(1.17), [-0.000_53, 0.000_29]);
    assert_eq!(a, b, "temporal jitter must not invalidate a stationary CSM");

    let changed = hash(scaled(1.23), [0.000_31, -0.000_47]);
    assert_ne!(
        a, changed,
        "projection/FOV changes must enter the shadow submission path"
    );
}

#[test]
fn fnv_hash_takes_one_word_per_value() {
    assert_eq!(fnv1a_f32s(&[]), 0xcbf2_9ce4_8422_2325);
    let mut hash: u64 = 0xcbf2_9ce4_8422_2325;
    for value in [1.0f32, -0.5] {
        hash ^= value.to_bits() as u64;
        hash = hash.wrapping_mul(0x0000_0100_0000_01b3);
    }
    assert_eq!(fnv1a_f32s(&[f(1.0), f(-0.5)]), hash);
    assert_ne!(fnv1a_f32s(&[f(0.0)]), fnv1a_f32s(&[f(-0.0)]));
}

#[test]
fn transform_dirty_range_is_end_exclusive_and_coalesced() {
    let mut range = None;
    include_dirty_instance(&mut range, 7);
    assert_eq!(range, Some((7, 8)));
    include_dirty_instance(&mut range, 3);
    include_dirty_instance(&mut range, 11);
    include_dirty_instance(&mut range, 5);
    assert_eq!(range, Some((3, 12)));
}

#[test]
fn ninth_volume_is_unsimulated_and_promoted_without_moving_survivor_slots() {
    let mut projection = WaterVolumeProjection::new();
    let ids: Vec<_> = (0..WATER_SIM_SLOT_COUNT + 1)
        .map(|index| WaterVolumeId::from_raw(index as u32 + 1, 1))
        .collect();

    for (index, id) in ids.iter().copied().enumerate() {
        let (_, row) = projection.insert(id, index as u32 + 20);
        assert_eq!(
            row[1],
            if index < WATER_SIM_SLOT_COUNT {
                index as u32
            } else {
                WATER_SIM_SLOT_UNASSIGNED
            }
        );
    }
    assert_eq!(projection.sim_slot(ids[WATER_SIM_SLOT_COUNT]), None);

    let removal = projection.remove(ids[3]).expect("projected volume");
    let (promoted_compact, promoted) = removal.promoted.expect("ninth volume promoted");
    assert_eq!(promoted[1], 3);
    assert_eq!(projection.sim_slot(ids[WATER_SIM_SLOT_COUNT]), Some(3));
    assert_eq!(projection.sim_slots[promoted_compact], 3);
    for (id, expected_slot) in ids[..WATER_SIM_SLOT_COUNT]
        .iter()
        .copied()
        .zip(0u32..)
        .filter(|(id, _)| *id != ids[3])
    {
        let compact = projection.active.slot(id).expect("survivor remains projected");
        assert_eq!(projection.sim_slots[compact], expected_slot);
    }
}

const ALLOCATED: u32 = 1;

fn entity(index: u32, generation: u32) -> Entity {
    Entity { index, generation }
}

#[test]
fn removal_and_same_batch_reuse_overwrite_stale_clears() {
    let old = entity(7, 1);
    let replacement = entity(7, 2);
    let mut projection = VoxelMeshProjection::new(ALLOCATED);
    assert_eq!(projection.allocate(old, 2, 19).unwrap(), 0);
    projection.mark_uploaded(old, 0, true, 1).unwrap();
    projection.release(old).unwrap();
    assert_eq!(projection.allocate(replacement, 2, 31).unwrap(), 0);
    projection.mark_uploaded(replacement, 0, true, 1).unwrap();

    let rows = projection.take_batch(9).unwrap();
    assert_eq!(rows[0].volume_row, 31);
    assert_eq!(rows[0].flags, ALLOCATED);
    assert_eq!(rows[0].generation, 9);
}

#[test]
fn output_ceiling_is_checked_and_free_ranges_coalesce() {
    let first = entity(1, 1);
    let second = entity(2, 1);
    let third = entity(3, 1);
    let mut projection = VoxelMeshProjection::new(ALLOCATED);
    assert_eq!(projection.allocate(first, 512, 4).unwrap(), 0);
    assert_eq!(projection.allocate(second, 512, 5).unwrap(), 512);
    assert_eq!(
        projection.allocate(third, 1, 6),
        Err(VoxelMeshProjectionError::CapacityExceeded)
    );
    projection.release(first).unwrap();
    projection.release(second).unwrap();
    assert_eq!(projection.allocate(third, 1024, 6).unwrap(), 0);
}

#[test]
fn upload_marks_the_full_halo_neighbourhood_but_preserves_occupancy() {
    let volume = entity(2, 4);
    let mut projection = VoxelMeshProjection::new(ALLOCATED);
    projection.allocate(volume, 27, 8).unwrap();
    projection.take_batch(1).unwrap();
    projection.mark_uploaded(volume, 13, true, 3).unwrap();
    let rows = projection.take_batch(2).unwrap();
    assert!(rows.iter().all(|row| row.generation == 2));
    assert_eq!(projection.draw_count(), 14);
}

#[test]
fn voxel_mesh_residency_reports_each_misuse() {
    let volume = entity(2, 4);
    let mut projection = VoxelMeshProjection::new(ALLOCATED);
    assert_eq!(projection.release(volume), Err(VoxelMeshProjectionError::NotResident));
    projection.allocate(volume, 8, 3).unwrap();
    assert_eq!(
        projection.allocate(volume, 8, 3),
        Err(VoxelMeshProjectionError::AlreadyResident)
    );
    assert_eq!(
        projection.mark_uploaded(volume, 8, true, 2),
        Err(VoxelMeshProjectionError::InvalidBrick)
    );
    assert_eq!(
        projection.mark_uploaded(entity(3, 1), 0, true, 2),
        Err(VoxelMeshProjectionError::NotResident)
    );
    assert!(projection.take_batch(1).is_some());
    assert!(projection.take_batch(2).is_none());
    assert_eq!(projection.row(0).unwrap().volume_row, 3);
}

/// Value noise of the height field, as an authoring tool computes it.
fn noise(x: i32, y: i32, z: i32, seed: u32) -> f32 {
    let mut h = (x as u32)
        .wrapping_mul(374761393)
        .wrapping_add((y as u32).wrapping_mul(668265263))
        .wrapping_add((z as u32).wrapping_mul(2654435761))
        .wrapping_add(seed.wrapping_mul(2246822519));
    h = (h ^ (h >> 15)).wrapping_mul(2246822519);
    h = (h ^ (h >> 13)).wrapping_mul(3266489917);
    h ^= h >> 16;
    (h as f32 / u32::MAX as f32) * 2.0 - 1.0
}

fn heights(seed: u32) -> Vec<F32> {
    let smooth = |t: f32| t * t * (3.0 - 2.0 * t);
    let mix = |a: f32, b: f32, t: f32| a + (b - a) * t;
    let plane = |x: f32, z: f32, seed: u32| {
        let (x0, z0) = (x.floor() as i32, z.floor() as i32);
        let (sx, sz) = (smooth(x - x0 as f32), smooth(z - z0 as f32));
        mix(
            mix(noise(x0, 0, z0, seed), noise(x0 + 1, 0, z0, seed), sx),
            mix(noise(x0, 0, z0 + 1, seed), noise(x0 + 1, 0, z0 + 1, seed), sx),
            sz,
        )
    };
    let mut list = Vec::new();
    for x in 0..64u32 {
        for z in 0..64u32 {
            let (mut amp, mut freq, mut sum, mut norm) = (0.5f32, 1.0f32, 0.0f32, 0.0f32);
            for i in 0..4u32 {
                let (px, pz) = (x as f32 / 18.0, z as f32 / 18.0);
                sum += plane(px * freq, pz * freq, seed.wrapping_add(i * 101)) * amp;
                norm += amp;
                amp *= 0.5;
                freq *= 2.0;
            }
            list.push(f(64.0 * 0.45 + sum / norm * (64.0 * 0.22)));
        }
    }
    list
}

#[test]
fn generated_terrain_contains_air_and_solid_voxels() {
    let mut terrain = VoxelTerrain::empty();
    terrain.generate(&heights(1), 1);

    assert!(terrain.materials.contains(&MAT_AIR));
    assert!(terrain.materials.iter().any(|&material| material != MAT_AIR));
}

/// Centre of the cave in a cell of sixteen voxels.
fn cave(cell: [u32; 3], seed: u32) -> [u32; 3] {
    let h = hash(cell[0] as i32, cell[1] as i32, cell[2] as i32, seed ^ 0x5bd1_e995);
    [16 * cell[0] + 2 + h % 12, 16 * cell[1] + 2 + h / 12 % 8, 16 * cell[2] + 2 + h / 96 % 12]
}

fn in_cave(at: [u32; 3], seed: u32) -> bool {
    let center = cave(at.map(|c| c / 16), seed);
    (0..3).map(|a| (at[a] as i32 - center[a] as i32).pow(2)).sum::<i32>() <= 4
}

#[test]
fn generated_hills_have_caves_in_them() {
    for seed in [0, 1, 77, u32::MAX] {
        let mut terrain = VoxelTerrain::empty();
        terrain.generate(&heights(seed), seed);
        let at = |x, y, z| terrain.materials[VoxelTerrain::idx(x, y, z)];
        for cx in 0..4 {
            for cz in 0..4 {
                let [x, y, z] = cave([cx, 0, cz], seed);
                assert_eq!(at(x, y, z), MAT_AIR);
                assert_eq!(at(x, y + 2, z), MAT_AIR);
                assert_ne!(at(x, y + 3, z), MAT_AIR);
            }
        }
    }
}

#[test]
fn generated_layers_follow_the_height_and_the_ore_noise() {
    let seed = 77;
    let list = heights(seed);
    let mut terrain = VoxelTerrain::empty();
    terrain.generate(&list, seed);
    let mut ores = 0;
    for x in 0..64u32 {
        for z in 0..64u32 {
            let height = f32::from_bits(list[(x * 64 + z) as usize].bits);
            for y in 0..64u32 {
                let depth = height - y as f32;
                let expected = if y as f32 > height {
                    MAT_AIR
                } else if depth < 1.0 {
                    MAT_GRASS
                } else if depth < 4.0 {
                    MAT_DIRT
                } else if in_cave([x, y, z], seed) {
                    MAT_AIR
                } else if noise(x as i32, y as i32, z as i32, seed ^ 0x1234_5678) > 0.985 {
                    ores += 1;
                    MAT_ORE
                } else {
                    MAT_STONE
                };
                assert_eq!(terrain.materials[VoxelTerrain::idx(x, y, z)], expected);
            }
        }
    }
    assert!(ores > 0);
}

#[test]
fn sphere_edits_update_the_dense_material_grid() {
    let mut terrain = VoxelTerrain::empty();
    let center = [32, 32, 32];
    let center_index = VoxelTerrain::idx(32, 32, 32);

    assert!(terrain.paint_sphere(center, 2, f(4.0), MAT_ORE, true).is_some());
    assert_eq!(terrain.materials[center_index], MAT_ORE);

    assert!(terrain.paint_sphere(center, 2, f(4.0), MAT_ORE, false).is_some());
    assert_eq!(terrain.materials[center_index], MAT_AIR);
}

#[test]
fn sphere_edits_report_the_touched_bricks() {
    let mut terrain = VoxelTerrain::empty();
    let range = terrain.paint_sphere([7, 8, 63], 1, f(1.0), MAT_STONE, true).unwrap();
    assert_eq!(range.min, [0, 0, 7]);
    assert_eq!(range.max, [1, 1, 7]);
    assert_eq!(terrain.materials.iter().filter(|&&m| m == MAT_STONE).count(), 6);
    assert!(terrain.paint_sphere([-9, 0, 0], 1, f(1.0), MAT_STONE, true).is_none());
}

#[test]
fn bricks_pack_four_voxels_in_a_word() {
    let mut terrain = VoxelTerrain::empty();
    terrain.materials[VoxelTerrain::idx(8, 0, 0)] = 0x11;
    terrain.materials[VoxelTerrain::idx(9, 0, 0)] = 0x22;
    terrain.materials[VoxelTerrain::idx(15, 7, 7)] = 0x44;
    let bricks = terrain.canonical_bricks(BrickRange { min: [0, 0, 0], max: [1, 0, 0] });
    assert_eq!(bricks.len(), 2);
    assert!(!bricks[0].occupied);
    assert_eq!(bricks[1].index, 1);
    assert!(bricks[1].occupied);
    assert_eq!(bricks[1].words[0], 0x2211);
    assert_eq!(bricks[1].words[127], 0x4400_0000);
    assert_eq!(terrain.canonical_bricks(BrickRange::all()).len(), 512);
}

#[test]
fn lattice_hash_takes_coordinates_of_either_sign() {
    assert_eq!(hash(0, 0, 0, 0), 0);
    assert_eq!(hash(1, 2, 3, 4), 2896897805);
    assert_eq!(hash(-1, 0, -5, 7), 3874506833);
    assert_eq!(hash(i32::MIN, i32::MAX, 0, u32::MAX), 3151742135);
}
