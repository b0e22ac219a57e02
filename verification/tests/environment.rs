//! Water, post-process volumes, reflection captures and planar reflectors of a scene.
use helio::draws::MaterialFlagBits;
use helio::errors::SceneError;
use helio::float_bits::F32;
use helio::flush::FlushReport;
use helio::foliage::Wind;
use helio::handles::{Entity, WaterVolumeId};
use helio::planar_reflections::{PlanarMeasure, PlanarReflectorDescriptor};
use helio::post_process::GpuPostProcessVolume;
use helio::reflections::{
    CaptureMeasure, ReflectionCaptureDescriptor, ReflectionCaptureMobility,
    ReflectionCaptureShape,
};
use helio::rows::NewRow;
use helio::scene::Scene;
use helio::selection::MAX_POST_PROCESS_VOLUME_PROJECTIONS;
use helio::setup::SceneConfig;
use helio::spaces::{identity_matrix, SpaceField};
use helio::water_projection::WATER_SIM_SLOT_COUNT;
use helio::water_rows::{
    validate_water_simulation, WaterHitboxDescriptor, WaterUnitVectors, WaterVolumeDescriptor,
};

fn f(x: f32) -> F32 {
    F32 { bits: x.to_bits() }
}

/// Entity slots, as the store hands them out.
struct Slots {
    next: u32,
    free: Vec<Entity>,
}

impl Slots {
    fn new() -> Self {
        Slots { next: 0, free: Vec::new() }
    }

    fn take(&mut self) -> Entity {
        match self.free.pop() {
            Some(old) => Entity { index: old.index, generation: old.generation + 1 },
            None => {
                self.next += 1;
                Entity { index: self.next - 1, generation: 1 }
            }
        }
    }
}

/// Rows of one component, as the store hands them out.
struct Rows {
    next: u32,
    free: Vec<u32>,
}

impl Rows {
    fn new() -> Self {
        Rows { next: 0, free: Vec::new() }
    }

    fn take(&mut self, slots: &mut Slots) -> NewRow {
        let gpu_row = self.free.pop().unwrap_or_else(|| {
            self.next += 1;
            self.next - 1
        });
        NewRow { entity: slots.take(), gpu_row }
    }

    fn give(&mut self, slots: &mut Slots, gone: NewRow) {
        slots.free.push(gone.entity);
        self.free.push(gone.gpu_row);
    }
}

fn scene() -> Scene {
    Scene::new(SceneConfig {
        space_field: SpaceField { shift: 8, capacity: 32 },
        flag_bits: MaterialFlagBits { forward_shading: 1, transparent_only: 2, alpha_test: 4 },
        voxel_allocated_flag: 1,
        corona_capacity: 8,
        sprite_limits: (256, 4096),
        wind: Wind {
            direction: [f(1.0), f(0.0), f(0.0)],
            speed: f(1.0),
            gusts: [f(0.0); 4],
            time: f(0.0),
            prev_time: f(0.0),
        },
    })
}

fn flush(scene: &mut Scene) -> FlushReport {
    let measured = vec![f(1.0); scene.realtime_light_count()];
    scene.flush(&measured, &identity_matrix(), &identity_matrix(), 0)
}

fn clear(scene: &mut Scene) -> FlushReport {
    scene.clear(&identity_matrix(), &identity_matrix(), 0)
}

fn translation(x: f32, y: f32, z: f32) -> [F32; 16] {
    let mut matrix = identity_matrix();
    matrix[12] = f(x);
    matrix[13] = f(y);
    matrix[14] = f(z);
    matrix
}

fn unit<const N: usize>(v: [F32; N]) -> [F32; N] {
    let length = v.iter().map(|c| f32::from_bits(c.bits).powi(2)).sum::<f32>().sqrt();
    v.map(|c| f(if length > 0.0 { f32::from_bits(c.bits) / length } else { 0.0 }))
}

fn units(desc: &WaterVolumeDescriptor) -> WaterUnitVectors {
    WaterUnitVectors { sun: unit(desc.sun_direction), wind: unit(desc.wind_direction) }
}

fn water(scene: &mut Scene, new: NewRow, desc: WaterVolumeDescriptor, tag: u64) -> WaterVolumeId {
    scene.insert_water_volume_with_tag(new, desc, units(&desc), tag).unwrap()
}

/// The inverse of a matrix that only translates; no numbers for a singular one.
fn measure(desc: &ReflectionCaptureDescriptor) -> CaptureMeasure {
    let m = desc.transform;
    let at = |i: usize| f32::from_bits(m[i].bits);
    let world_to_local = if at(0) == 1.0 {
        translation(-at(12), -at(13), -at(14))
    } else {
        [f(f32::NAN); 16]
    };
    CaptureMeasure { world_to_local, influence: desc.influence_radius }
}

fn hitbox() -> WaterHitboxDescriptor {
    WaterHitboxDescriptor {
        old_min: [f(-1.0); 3],
        old_max: [f(1.0); 3],
        new_min: [f(-0.5); 3],
        new_max: [f(0.5); 3],
        edge_softness: f(0.4),
        strength: f(1.25),
    }
}

fn volume(priority: f32) -> GpuPostProcessVolume {
    GpuPostProcessVolume { priority: f(priority), settings: vec![1, 2, 3] }
}

#[test]
fn environment_crud_tags_queries_and_gpu_rows_stay_in_lockstep() {
    let mut scene = scene();
    let mut slots = Slots::new();
    let mut waters = Rows::new();

    let first_new = waters.take(&mut slots);
    let first_water = water(&mut scene, first_new, WaterVolumeDescriptor::default(), 101);
    let mut second_desc = WaterVolumeDescriptor::default();
    second_desc.water_color = [f(0.1), f(0.3), f(0.8)];
    let second_new = waters.take(&mut slots);
    let second_water = water(&mut scene, second_new, second_desc, 102);
    let hitbox_id = scene.insert_water_hitbox_with_tag(
        Rows::new().take(&mut slots),
        hitbox(),
        201,
    );
    let pp = scene
        .insert_post_process_volume_with_tag(Rows::new().take(&mut slots), volume(0.0), 301)
        .unwrap();
    let desc = ReflectionCaptureDescriptor::default();
    let capture = scene
        .insert_reflection_capture_with_tag(
            Rows::new().take(&mut slots),
            desc,
            measure(&desc),
            401,
        )
        .unwrap();

    assert_eq!(scene.water_volume_by_tag(101), Some(first_water));
    assert_eq!(scene.water_volume_by_tag(102), Some(second_water));
    assert_eq!(scene.water_volume_by_tag(0), None);
    assert_eq!(scene.water_hitbox_by_tag(201), Some(hitbox_id));
    assert_eq!(scene.post_process_volume_by_tag(301), Some(pp));
    assert_eq!(scene.reflection_capture_by_tag(401), Some(capture));
    assert_eq!(scene.iter_water_volumes().len(), 2);
    assert_eq!(scene.iter_water_volumes()[1].2, 102);
    assert_eq!(scene.get_water_volumes_gpu().len(), 2);
    assert_eq!(scene.iter_water_hitboxes().len(), 1);
    assert_eq!(scene.iter_water_hitboxes()[0].2, 201);
    assert_eq!(scene.get_water_hitboxes_gpu()[0].params[0], f(0.4));
    assert_eq!(scene.iter_post_process_volumes().len(), 1);
    assert_eq!(scene.iter_reflection_captures().len(), 1);

    let first_slot_generation = scene.water.slot_generations[0];
    scene.remove_water_volume(first_water).unwrap();
    waters.give(&mut slots, first_new);
    // Swap-removing compact membership must not move the surviving volume's
    // persistent heightfield residency from slot 1 into the vacated slot 0.
    assert_eq!(scene.water_volume_projections(), vec![[second_new.gpu_row, 1]]);

    // A new occupant may reuse slot 0, but its reset epoch must change even if
    // the store also reuses the removed component row.
    let replacement_new = waters.take(&mut slots);
    assert_eq!(replacement_new.gpu_row, first_new.gpu_row);
    let replacement =
        water(&mut scene, replacement_new, WaterVolumeDescriptor::default(), 103);
    assert_ne!(replacement, first_water);
    assert_eq!(scene.water_volume_projections()[1][1], 0);
    assert_ne!(scene.water.slot_generations[0], first_slot_generation);
    scene.remove_water_volume(replacement).unwrap();

    scene.assign_reflection_capture_layers();
    assert_eq!(scene.get_reflection_capture(capture).unwrap().cubemap_index, 0);

    let mut wind = scene.wind();
    wind.direction = [f(3.0), f(0.0), f(4.0)];
    wind.speed = f(7.0);
    scene.set_wind(wind);
    scene.advance_wind(f(0.25));
    let queried_wind = scene.wind();
    assert_eq!(queried_wind.direction, wind.direction);
    assert_eq!(queried_wind.speed, f(7.0));
    assert_eq!(queried_wind.time, f(0.25));
    assert_eq!(queried_wind.prev_time, f(0.0));

    flush(&mut scene);
    assert_eq!(scene.water_volumes_count(), 1);
    assert_eq!(scene.water_hitboxes_count(), 1);
    assert_eq!(scene.post_process_volumes_count(), 1);
    assert_eq!(scene.reflection_capture_count(), 1);

    clear(&mut scene);
    assert_eq!(scene.water_volumes_count(), 0);
    assert_eq!(scene.water_hitboxes_count(), 0);
    assert_eq!(scene.post_process_volumes_count(), 0);
    assert_eq!(scene.reflection_capture_count(), 0);
    assert_eq!(scene.water_volume_by_tag(102), None);
    assert_eq!(scene.water_hitbox_by_tag(201), None);
    assert_eq!(scene.post_process_volume_by_tag(301), None);
    assert_eq!(scene.reflection_capture_by_tag(401), None);
    assert!(scene.get_water_volume(second_water).is_none());
    assert!(scene.get_water_hitbox(hitbox_id).is_none());
    assert!(scene.get_post_process_volume(pp).is_none());
    assert!(scene.get_reflection_capture(capture).is_none());

    // Clear removes authored scene entities but preserves the global wind.
    assert_eq!(scene.wind().time, f(0.25));
}

#[test]
fn water_simulation_authorship_is_per_volume_and_updates_transactionally() {
    let mut scene = scene();
    let mut slots = Slots::new();
    let new = Rows::new().take(&mut slots);
    let desc = WaterVolumeDescriptor::default();
    let id = scene.insert_water_volume(new, desc, units(&desc)).unwrap();
    let before = scene.get_water_volume(id).unwrap();

    let mut invalid = WaterVolumeDescriptor::default();
    invalid.wave_scale = f(0.0);
    assert!(scene.update_water_volume(id, invalid, units(&invalid)).is_err());
    let after_rejection = scene.get_water_volume(id).unwrap();
    assert!(
        before.same(&after_rejection),
        "a rejected authored edit must not partially mutate the canonical row"
    );

    let mut edited = WaterVolumeDescriptor::default();
    edited.wave_spring = f(1.75);
    edited.wave_damping = f(0.91);
    edited.wave_speed = f(2.5);
    edited.wave_scale = f(0.35);
    edited.wind_direction = [f(3.0), f(4.0)];
    edited.wind_strength = f(4.25);
    scene.update_water_volume(id, edited, units(&edited)).unwrap();

    let canonical = scene.get_water_volume(id).unwrap();
    assert_eq!(canonical.sim_dynamics, [f(1.75), f(0.91), f(0.35), f(0.0)]);
    assert_eq!(canonical.wave_params[2], f(2.5));
    assert!((f32::from_bits(canonical.wind_params[0].bits) - 0.6).abs() < 1e-6);
    assert!((f32::from_bits(canonical.wind_params[1].bits) - 0.8).abs() < 1e-6);
    assert_eq!(canonical.wind_params[2], f(4.25));
}

#[test]
fn water_simulation_targets_reject_stale_and_unsimulated_handles() {
    let mut scene = scene();
    let mut slots = Slots::new();
    let mut rows = Rows::new();
    let mut ids = Vec::new();
    for _ in 0..=WATER_SIM_SLOT_COUNT {
        let desc = WaterVolumeDescriptor::default();
        let new = rows.take(&mut slots);
        ids.push(scene.insert_water_volume(new, desc, units(&desc)).unwrap());
    }
    let origin = [f(0.0), f(0.0)];
    let first_target = scene.water_volume_sim_target(ids[0]).unwrap();
    let first_drop = scene.water_drop_target(ids[0], origin).unwrap();
    assert_eq!(first_drop.simulation, first_target);
    assert_eq!(first_drop.world_center, origin);
    assert!(matches!(
        scene.water_drop_target(ids[0], [f(10_000.0), f(0.0)]),
        Err(SceneError::InvalidOperation { .. })
    ));
    assert!(matches!(
        scene.water_volume_sim_target(ids[WATER_SIM_SLOT_COUNT]),
        Err(SceneError::InvalidOperation { .. })
    ));
    assert!(matches!(
        scene.water_drop_target(ids[WATER_SIM_SLOT_COUNT], origin),
        Err(SceneError::InvalidOperation { .. })
    ));

    scene.remove_water_volume(ids[0]).unwrap();
    assert!(matches!(
        scene.water_volume_sim_target(ids[0]),
        Err(SceneError::InvalidHandle { .. })
    ));
    assert!(matches!(
        scene.water_drop_target(ids[0], origin),
        Err(SceneError::InvalidHandle { .. })
    ));

    let promoted = scene.water_volume_sim_target(ids[WATER_SIM_SLOT_COUNT]).unwrap();
    assert_eq!(promoted.sim_slot, first_target.sim_slot);
    assert_ne!(
        promoted.residency_generation, first_target.residency_generation,
        "slot reuse must invalidate already queued transient targets"
    );
    let promoted_drop = scene.water_drop_target(ids[WATER_SIM_SLOT_COUNT], origin).unwrap();
    assert_eq!(promoted_drop.simulation, promoted);
}

#[test]
fn water_drops_must_be_finite_and_inside() {
    let mut scene = scene();
    let mut slots = Slots::new();
    let desc = WaterVolumeDescriptor::default();
    let id = scene
        .insert_water_volume(Rows::new().take(&mut slots), desc, units(&desc))
        .unwrap();
    for center in [[f(f32::NAN), f(0.0)], [f(0.0), f(f32::INFINITY)]] {
        assert!(matches!(
            scene.water_drop_target(id, center),
            Err(SceneError::InvalidOperation { .. })
        ));
    }
    let corner = [desc.bounds_min[0], desc.bounds_min[2]];
    assert!(scene.water_drop_target(id, corner).is_ok());
}

#[test]
fn simulation_parameters_are_bounded() {
    let ok = WaterVolumeDescriptor::default();
    assert!(validate_water_simulation(&ok).is_ok());
    assert!(validate_water_simulation(&WaterVolumeDescriptor::ocean()).is_ok());
    assert!(validate_water_simulation(&WaterVolumeDescriptor::lake()).is_ok());
    let cases: [fn(&mut WaterVolumeDescriptor); 6] = [
        |d| d.wave_spring = f(0.05),
        |d| d.wave_spring = f(2.5),
        |d| d.wave_damping = f(1.5),
        |d| d.wave_damping = f(f32::NAN),
        |d| d.wave_scale = f(0.0),
        |d| d.wind_strength = f(f32::INFINITY),
    ];
    for change in cases {
        let mut bad = ok;
        change(&mut bad);
        assert!(matches!(
            validate_water_simulation(&bad),
            Err(SceneError::InvalidOperation { .. })
        ));
    }
}

#[test]
fn hitboxes_are_edited_in_place_and_forgotten() {
    let mut scene = scene();
    let mut slots = Slots::new();
    let id = scene.insert_water_hitbox(Rows::new().take(&mut slots), hitbox());
    let mut moved = hitbox();
    moved.new_max = [f(2.0); 3];
    scene.update_water_hitbox(id, moved).unwrap();
    let row = scene.get_water_hitbox(id).unwrap();
    assert!(row.same(&moved.to_gpu()));
    assert_eq!(row.new_max[0], f(2.0));
    assert_eq!(row.params[1], f(1.25));
    scene.remove_water_hitbox(id).unwrap();
    assert_eq!(
        scene.update_water_hitbox(id, moved),
        Err(SceneError::InvalidHandle { resource: "water hitbox" })
    );
    assert_eq!(
        scene.remove_water_hitbox(id),
        Err(SceneError::InvalidHandle { resource: "water hitbox" })
    );
}

#[test]
fn post_process_shader_projection_keeps_high_priority_rows_without_truncating_authority() {
    let mut scene = scene();
    let mut slots = Slots::new();
    let mut rows = Rows::new();
    let mut ids = Vec::new();
    let mut news = Vec::new();
    for priority in 0..=MAX_POST_PROCESS_VOLUME_PROJECTIONS {
        let new = rows.take(&mut slots);
        news.push(new);
        ids.push(scene.insert_post_process_volume(new, volume(priority as f32)).unwrap());
    }

    assert_eq!(
        scene.iter_post_process_volumes().len(),
        MAX_POST_PROCESS_VOLUME_PROJECTIONS + 1,
    );
    assert_eq!(
        scene.post_process_volumes_count() as usize,
        MAX_POST_PROCESS_VOLUME_PROJECTIONS + 1,
    );
    assert_eq!(scene.post_process.shader_rows.len(), MAX_POST_PROCESS_VOLUME_PROJECTIONS);

    let lowest_row = news[0].gpu_row;
    let highest_row = news.last().unwrap().gpu_row;
    assert!(!scene.post_process.shader_rows.contains(&lowest_row));
    assert!(scene.post_process.shader_rows.contains(&highest_row));

    scene.update_post_process_volume(ids[0], volume(10_000.0)).unwrap();
    assert!(scene.post_process.shader_rows.contains(&lowest_row));
    assert_eq!(scene.iter_post_process_volumes().len(), ids.len());
}

#[test]
fn post_process_priority_validation_is_transactional_for_insert_and_update() {
    let mut scene = scene();
    let mut slots = Slots::new();
    let new = Rows::new().take(&mut slots);
    assert!(matches!(
        scene.insert_post_process_volume(new, volume(f32::NAN)),
        Err(SceneError::InvalidOperation { .. })
    ));
    assert_eq!(scene.iter_post_process_volumes().len(), 0);
    assert!(scene.post_process.shader_rows.is_empty());

    let id = scene.insert_post_process_volume(new, volume(7.0)).unwrap();
    let old_projection = scene.post_process.shader_rows.clone();

    assert!(matches!(
        scene.update_post_process_volume(id, volume(f32::INFINITY)),
        Err(SceneError::InvalidOperation { .. })
    ));

    assert!(scene.get_post_process_volume(id).unwrap().same(&volume(7.0)));
    assert_eq!(scene.iter_post_process_volumes()[0].2, 0);
    assert_eq!(scene.post_process.shader_rows, old_projection);
    assert_eq!(scene.post_process.volumes.row(id), Some(new.gpu_row));
    scene.remove_post_process_volume(id).unwrap();
    assert!(scene.remove_post_process_volume(id).is_err());
    assert!(scene.update_post_process_volume(id, volume(1.0)).is_err());
}

#[test]
fn static_reflection_crud_invalidates_bakes_but_dynamic_only_edits_do_not() {
    let mut scene = scene();
    let mut slots = Slots::new();
    let mut rows = Rows::new();

    let mut static_desc = ReflectionCaptureDescriptor::default();
    let static_capture = scene
        .insert_reflection_capture(rows.take(&mut slots), static_desc, measure(&static_desc))
        .unwrap();
    assert!(scene.is_bake_invalidated());

    // Model the clean baseline established after a successful configured bake.
    scene.bake_invalidated = false;
    static_desc.transform = translation(4.0, 2.0, -3.0);
    scene
        .update_reflection_capture(static_capture, &static_desc, measure(&static_desc))
        .unwrap();
    assert!(scene.is_bake_invalidated());

    scene.bake_invalidated = false;
    let mut dynamic_desc = ReflectionCaptureDescriptor::default().dynamic();
    let dynamic_capture = scene
        .insert_reflection_capture(rows.take(&mut slots), dynamic_desc, measure(&dynamic_desc))
        .unwrap();
    assert!(!scene.is_bake_invalidated());
    dynamic_desc.brightness = f(2.0);
    scene
        .update_reflection_capture(dynamic_capture, &dynamic_desc, measure(&dynamic_desc))
        .unwrap();
    assert!(!scene.is_bake_invalidated());
    assert!(scene.remove_reflection_capture(dynamic_capture));
    assert!(!scene.is_bake_invalidated());

    assert!(scene.remove_reflection_capture(static_capture));
    assert!(scene.is_bake_invalidated());
    assert!(!scene.remove_reflection_capture(static_capture));
}

#[test]
fn reflection_descriptor_validation_is_transactional_for_insert_and_update() {
    let mut scene = scene();
    let mut slots = Slots::new();
    let new = Rows::new().take(&mut slots);
    let base = ReflectionCaptureDescriptor::default();

    let invalid_inserts = [
        ReflectionCaptureDescriptor { transform: [f(f32::NAN); 16], ..base },
        ReflectionCaptureDescriptor { transform: [f(0.0); 16], ..base },
        ReflectionCaptureDescriptor { influence_radius: f(-1.0), ..base },
        ReflectionCaptureDescriptor { transition_distance: f(f32::INFINITY), ..base },
    ];
    for invalid in invalid_inserts {
        assert!(matches!(
            scene.insert_reflection_capture(new, invalid, measure(&invalid)),
            Err(SceneError::InvalidOperation { .. })
        ));
    }
    assert_eq!(scene.reflection_capture_count(), 0);
    assert!(scene.reflections.shader_pairs.is_empty());
    assert!(!scene.is_bake_invalidated());

    let id = scene.insert_reflection_capture(new, base, measure(&base)).unwrap();
    scene.assign_reflection_capture_layers();
    scene.bake_invalidated = false;

    let old_row = scene.get_reflection_capture(id).unwrap();
    let old_projection = scene.reflections.shader_pairs.clone();
    assert_eq!(old_projection, vec![[new.gpu_row, 0]]);
    let invalid_updates = [
        ReflectionCaptureDescriptor { transform: [f(0.0); 16], ..base },
        ReflectionCaptureDescriptor { extents: [f(1.0), f(-0.5), f(1.0)], ..base },
        ReflectionCaptureDescriptor { influence_radius: f(f32::NAN), ..base },
        ReflectionCaptureDescriptor { brightness: f(f32::NEG_INFINITY), ..base },
    ];
    for invalid in &invalid_updates {
        assert!(matches!(
            scene.update_reflection_capture(id, invalid, measure(invalid)),
            Err(SceneError::InvalidOperation { .. })
        ));
    }

    assert!(scene.get_reflection_capture(id).unwrap().same(&old_row));
    assert_eq!(scene.iter_reflection_captures()[0].2, 0);
    assert_eq!(scene.reflections.shader_pairs, old_projection);
    assert_eq!(scene.get_reflection_capture(id).unwrap().cubemap_index, 0);
    assert!(!scene.is_bake_invalidated());
}

#[test]
fn capture_builders_describe_spheres_and_boxes() {
    let sphere = ReflectionCaptureDescriptor::sphere([f(1.0), f(2.0), f(3.0)], f(9.0));
    assert_eq!(sphere.position(), [f(1.0), f(2.0), f(3.0)]);
    assert_eq!(sphere.shape, ReflectionCaptureShape::Sphere);
    let boxed =
        ReflectionCaptureDescriptor::boxed(translation(4.0, 0.0, 0.0), [f(2.0); 3], f(7.0))
            .with_brightness(f(0.5))
            .with_transition_distance(f(1.5))
            .dynamic();
    assert_eq!(boxed.shape, ReflectionCaptureShape::Box);
    assert_eq!(boxed.mobility, ReflectionCaptureMobility::Dynamic);
    assert_eq!(boxed.brightness, f(0.5));
    assert_eq!(boxed.transition_distance, f(1.5));
    assert_eq!(boxed.position()[0], f(4.0));
}

#[test]
fn static_captures_get_layers_in_report_order() {
    let mut scene = scene();
    let mut slots = Slots::new();
    let mut rows = Rows::new();
    let mut ids = Vec::new();
    for (x, dynamic) in [(1.0, false), (2.0, true), (3.0, false)] {
        let desc = ReflectionCaptureDescriptor::sphere([f(x), f(0.0), f(0.0)], f(x));
        let desc = if dynamic { desc.dynamic() } else { desc };
        ids.push(
            scene
                .insert_reflection_capture(rows.take(&mut slots), desc, measure(&desc))
                .unwrap(),
        );
    }
    scene.assign_reflection_capture_layers();
    let positions = scene.static_reflection_capture_positions();
    assert_eq!(positions, vec![[f(1.0), f(0.0), f(0.0)], [f(3.0), f(0.0), f(0.0)]]);
    assert_eq!(scene.get_reflection_capture(ids[0]).unwrap().cubemap_index, 0);
    assert_eq!(scene.get_reflection_capture(ids[1]).unwrap().cubemap_index, -1);
    assert_eq!(scene.get_reflection_capture(ids[2]).unwrap().cubemap_index, 1);
}

fn vector(v: [F32; 3]) -> [f64; 3] {
    v.map(|c| f32::from_bits(c.bits) as f64)
}

fn normalize(v: [f64; 3]) -> ([f64; 3], f64) {
    let scale = v.iter().fold(0.0f64, |m, c| m.max(c.abs()));
    let v = v.map(|c| if scale > 0.0 { c / scale } else { 0.0 });
    let length = v.iter().map(|c| c * c).sum::<f64>().sqrt();
    (v.map(|c| if length > 0.0 { c / length } else { 0.0 }), length)
}

/// The basis of a reflector: its unit normal, and its tangent in the reflecting plane.
fn basis(desc: &PlanarReflectorDescriptor) -> PlanarMeasure {
    let (normal, _) = normalize(vector(desc.normal));
    let (tangent, _) = normalize(vector(desc.tangent));
    let along = (0..3).map(|i| normal[i] * tangent[i]).sum::<f64>();
    let projected = [0, 1, 2].map(|i| tangent[i] - normal[i] * along);
    let square = projected.iter().map(|c| c * c).sum::<f64>();
    let (tangent, _) = normalize(projected);
    PlanarMeasure {
        normal: normal.map(|c| f(c as f32)),
        projected_length_squared: f(square as f32),
        tangent: tangent.map(|c| f(c as f32)),
        cosine: f(f32::from_bits(desc.normal_tolerance_radians.bits).cos()),
    }
}

#[test]
fn validation_orthonormalizes_transactionally() {
    let mut scene = scene();
    let mut slots = Slots::new();
    let desc = PlanarReflectorDescriptor::new(
        [f(1.0), f(2.0), f(3.0)],
        [f(0.0), f(2.0), f(0.0)],
        [f(2.0), f(2.0), f(0.0)],
        [f(4.0), f(5.0)],
    );
    let id = scene
        .insert_planar_reflector(Rows::new().take(&mut slots), desc, basis(&desc))
        .unwrap();
    let row = scene.get_planar_reflector(id).unwrap();
    let normalized =
        PlanarReflectorDescriptor::from_row(row, desc.normal_tolerance_radians);
    assert_eq!(normalized.normal, [f(0.0), f(1.0), f(0.0)]);
    assert_eq!(normalized.tangent, [f(1.0), f(0.0), f(0.0)]);

    let huge = PlanarReflectorDescriptor {
        normal: [f(0.0), f(f32::MAX), f(0.0)],
        tangent: [f(f32::MAX), f(f32::MAX), f(0.0)],
        ..normalized
    };
    scene.update_planar_reflector(id, huge, basis(&huge)).unwrap();
    let before = scene.get_planar_reflector(id).unwrap();
    let normalized =
        PlanarReflectorDescriptor::from_row(before, desc.normal_tolerance_radians);
    assert_eq!(normalized.normal, [f(0.0), f(1.0), f(0.0)]);
    assert_eq!(normalized.tangent, [f(1.0), f(0.0), f(0.0)]);

    let invalid = PlanarReflectorDescriptor {
        tangent: [f(0.0), f(9.0), f(0.0)],
        ..normalized
    };
    assert!(scene.update_planar_reflector(id, invalid, basis(&invalid)).is_err());
    let after = scene.get_planar_reflector(id).unwrap();
    assert_eq!(after.position_tolerance, before.position_tolerance);
    assert_eq!(after.normal_cos_threshold, before.normal_cos_threshold);
    assert_eq!(after.tangent_priority, before.tangent_priority);
    assert_eq!(after.half_extents_reserved, before.half_extents_reserved);
}

#[test]
fn sparse_rows_stale_handles_and_both_allocation_epochs_stay_coherent() {
    let mut scene = scene();
    let mut slots = Slots::new();
    let mut rows = Rows::new();
    let desc = PlanarReflectorDescriptor::default();
    let first_new = rows.take(&mut slots);
    let first = scene
        .insert_planar_reflector_with_tag(first_new, desc, basis(&desc), 11)
        .unwrap();
    flush(&mut scene);

    let higher = PlanarReflectorDescriptor {
        position: [f(0.0), f(3.0), f(0.0)],
        ..PlanarReflectorDescriptor::default()
    };
    let second_new = rows.take(&mut slots);
    let second = scene
        .insert_planar_reflector_with_tag(second_new, higher, basis(&higher), 12)
        .unwrap();
    assert_ne!(first_new.gpu_row, second_new.gpu_row);
    flush(&mut scene);
    assert_eq!(scene.planar_reflector_count(), 2);
    assert_eq!(scene.iter_planar_reflectors()[0].2, 11);

    scene.remove_planar_reflector(first).unwrap();
    rows.give(&mut slots, first_new);
    assert_eq!(scene.planar_reflector_by_tag(11), None);
    assert_eq!(scene.planar_reflector_by_tag(12), Some(second));
    assert_eq!(scene.planar_reflectors.rows(), &[second_new.gpu_row]);
    assert_eq!(scene.planar_reflectors.row(second), Some(second_new.gpu_row));

    let lower = PlanarReflectorDescriptor {
        position: [f(0.0), f(-4.0), f(0.0)],
        ..PlanarReflectorDescriptor::default()
    };
    let replacement_new = rows.take(&mut slots);
    let replacement = scene
        .insert_planar_reflector(replacement_new, lower, basis(&lower))
        .unwrap();
    assert_eq!(scene.planar_reflectors.row(replacement), Some(first_new.gpu_row));
    assert!(scene.get_planar_reflector(first).is_none());
    assert!(scene.update_planar_reflector(first, desc, basis(&desc)).is_err());
    assert!(scene.remove_planar_reflector(first).is_err());

    clear(&mut scene);
    assert_eq!(scene.planar_reflector_count(), 0);
    assert!(scene.planar_reflectors.rows().is_empty());
}

#[test]
fn reflectors_reject_what_is_no_mirror() {
    let ok = PlanarReflectorDescriptor::default();
    assert!(ok.validated_row(basis(&ok)).is_ok());
    assert_eq!(ok.normal_tolerance_radians, f(15f32.to_radians()));
    let cases: [fn(&mut PlanarReflectorDescriptor); 7] = [
        |d| d.position[1] = f(f32::NAN),
        |d| d.half_extents[0] = f(0.0),
        |d| d.half_extents[1] = f(-1.0),
        |d| d.surface_tolerance = f(-0.5),
        |d| d.normal_tolerance_radians = f(2.0),
        |d| d.priority = f(f32::INFINITY),
        |d| d.tangent = d.normal,
    ];
    for change in cases {
        let mut bad = ok;
        change(&mut bad);
        assert!(matches!(
            bad.validated_row(basis(&bad)),
            Err(SceneError::InvalidOperation { .. })
        ));
    }
}
