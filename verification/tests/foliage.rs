//! Foliage rows and the foliage of a scene.
use helio::draws::MaterialFlagBits;
use helio::errors::SceneError;
use helio::float_bits::F32;
use helio::flush::FlushReport;
use helio::foliage::{GpuFoliageLayerTypeRelation, Wind, MAX_PACKED_FOLIAGE_TYPES};
use helio::foliage_rows::{
    FoliageInteractor, FoliageKind, FoliageLayer, FoliageTypeDescriptor, GpuFoliageInteractor,
    GpuFoliageType,
};
use helio::handles::{Entity, FoliageTypeId, Handle, MaterialId};
use helio::materials::GpuMaterial;
use helio::rows::NewRow;
use helio::scene::Scene;
use helio::setup::SceneConfig;
use helio::spaces::{identity_matrix, SpaceField};

fn f(x: f32) -> F32 {
    F32 { bits: x.to_bits() }
}

/// Entity slots, as the store hands them out.
struct Slots {
    next: u32,
    free: Vec<Entity>,
}

impl Slots {
    fn new() -> Self {
        Slots { next: 0, free: Vec::new() }
    }

    fn take(&mut self) -> Entity {
        match self.free.pop() {
            Some(old) => Entity { index: old.index, generation: old.generation + 1 },
            None => {
                self.next += 1;
                Entity { index: self.next - 1, generation: 1 }
            }
        }
    }
}

/// Rows of one component, as the store hands them out.
struct Rows {
    next: u32,
    free: Vec<u32>,
}

impl Rows {
    fn new() -> Self {
        Rows { next: 0, free: Vec::new() }
    }

    fn take(&mut self, slots: &mut Slots) -> NewRow {
        let gpu_row = self.free.pop().unwrap_or_else(|| {
            self.next += 1;
            self.next - 1
        });
        NewRow { entity: slots.take(), gpu_row }
    }

    fn give(&mut self, slots: &mut Slots, gone: NewRow) {
        slots.free.push(gone.entity);
        self.free.push(gone.gpu_row);
    }
}

fn scene() -> Scene {
    Scene::new(SceneConfig {
        space_field: SpaceField { shift: 8, capacity: 32 },
        flag_bits: MaterialFlagBits { forward_shading: 1, transparent_only: 2, alpha_test: 4 },
        voxel_allocated_flag: 1,
        corona_capacity: 8,
        sprite_limits: (256, 4096),
        wind: Wind {
            direction: [f(1.0), f(0.0), f(0.0)],
            speed: f(1.0),
            gusts: [f(0.0); 4],
            time: f(0.0),
            prev_time: f(0.0),
        },
    })
}

fn flush(scene: &mut Scene) -> FlushReport {
    let measured = vec![f(1.0); scene.realtime_light_count()];
    scene.flush(&measured, &identity_matrix(), &identity_matrix(), 0)
}

fn clear(scene: &mut Scene) -> FlushReport {
    scene.clear(&identity_matrix(), &identity_matrix(), 0)
}

fn value(x: F32) -> f32 {
    f32::from_bits(x.bits)
}

fn no_material() -> MaterialId {
    MaterialId::from_raw(0, 0)
}

fn blades(material: MaterialId) -> FoliageTypeDescriptor {
    FoliageTypeDescriptor::blades(material, [f(10.0), f(30.0), f(60.0), f(120.0)])
}

/// The band of cosines between the two slope angles, the steeper first.
fn cosines(desc: &FoliageTypeDescriptor) -> [F32; 2] {
    let angles = desc.slope_angles();
    [f(value(angles[1]).cos()), f(value(angles[0]).cos())]
}

fn to_gpu(desc: FoliageTypeDescriptor) -> GpuFoliageType {
    desc.to_gpu(0, cosines(&desc))
}

fn material() -> GpuMaterial {
    GpuMaterial { material_class: 0, flags: 0, class_params: [f(0.0); 4], surface: [0; 16] }
}

fn layer(types: Vec<FoliageTypeId>, seed: u32) -> FoliageLayer {
    FoliageLayer {
        types,
        bounds: [[f(-10.0); 3], [f(10.0); 3]],
        seed,
        has_infinite_extent: false,
    }
}

fn add_type(scene: &mut Scene, new: NewRow, material: MaterialId) -> FoliageTypeId {
    let desc = blades(material);
    scene.add_foliage_type(new, desc, cosines(&desc)).unwrap()
}

#[test]
fn descriptor_packs_kind_and_flags() {
    let gpu = to_gpu(FoliageTypeDescriptor {
        kind: FoliageKind::Blade,
        two_sided: true,
        casts_shadow: false,
        receives_interaction: true,
        ..blades(no_material())
    });

    assert_eq!(gpu.kind, FoliageKind::Blade);
    assert!(gpu.flags.two_sided);
    assert!(!gpu.flags.casts_shadow);
    assert!(gpu.flags.receives_interaction);
}

#[test]
fn non_finite_descriptor_inputs_degrade_to_inert_values() {
    let gpu = to_gpu(FoliageTypeDescriptor {
        density: f(f32::NAN),
        height_range: [f(f32::NAN), f(f32::INFINITY)],
        interaction_stiffness: f(f32::NEG_INFINITY),
        wind_response: [f(f32::NAN); 3],
        ..blades(no_material())
    });

    assert_eq!(gpu.density, f(0.0));
    assert!(gpu.height_range.iter().all(|v| v.is_finite()));
    assert!(gpu.interaction_stiffness.is_finite());
    assert!(gpu.wind_response.iter().all(|v| v.is_finite()));
}

#[test]
fn flat_ground_is_inside_the_default_slope_band() {
    let gpu = to_gpu(FoliageTypeDescriptor {
        slope_range: [f(0.0), f(35f32.to_radians())],
        ..blades(no_material())
    });

    let flat_ground_cos = 1.0_f32;
    assert!(
        flat_ground_cos >= value(gpu.slope_range[0])
            && flat_ground_cos <= value(gpu.slope_range[1]),
        "flat ground (cos = 1.0) must be inside {:?}",
        gpu.slope_range
    );

    // And a 60° face must be outside a 35° band.
    let steep_cos = 60f32.to_radians().cos();
    assert!(steep_cos < value(gpu.slope_range[0]));
}

#[test]
fn steeper_max_angle_widens_the_accepted_band() {
    let band = |degrees: f32| {
        to_gpu(FoliageTypeDescriptor {
            slope_range: [f(0.0), f(degrees.to_radians())],
            ..blades(no_material())
        })
    };
    assert!(value(band(70.0).slope_range[0]) < value(band(10.0).slope_range[0]));
}

#[test]
fn inverted_ranges_are_ordered_not_rejected() {
    let gpu = to_gpu(FoliageTypeDescriptor {
        height_range: [f(0.9), f(0.1)],
        ..blades(no_material())
    });
    assert!(value(gpu.height_range[0]) <= value(gpu.height_range[1]));
    assert_eq!(gpu.height_range, [f(0.1), f(0.9)]);
}

#[test]
fn lod_distances_are_forced_non_decreasing() {
    let gpu = to_gpu(FoliageTypeDescriptor {
        lod_distances: [f(40.0), f(10.0), f(80.0), f(5.0)],
        ..blades(no_material())
    });
    let d = gpu.lod_distances.map(value);
    assert!(d[0] <= d[1] && d[1] <= d[2] && d[2] <= d[3], "{d:?}");
    assert_eq!(d, [40.0, 40.0, 80.0, 80.0]);
}

#[test]
fn slope_angles_stay_within_a_half_turn() {
    let mut desc = blades(no_material());
    desc.slope_range = [f(9.0), f(-1.0)];
    assert_eq!(desc.slope_angles(), [f(0.0), f(std::f32::consts::PI)]);
    desc.slope_range = [f(f32::NAN), f(f32::NAN)];
    assert_eq!(desc.slope_angles(), [f(0.0), f(std::f32::consts::FRAC_PI_4)]);
}

#[test]
fn interactor_rejects_non_finite_transform() {
    let gpu = FoliageInteractor {
        position: [f(f32::NAN), f(0.0), f(0.0)],
        radius: f(-3.0),
        velocity: [f(f32::INFINITY); 3],
    }
    .to_gpu();

    assert!(gpu.position_radius.iter().all(|v| v.is_finite()));
    assert!(gpu.velocity.iter().all(|v| v.is_finite()));
    assert!(value(gpu.position_radius[3]) >= 0.0);
}

#[test]
fn interactor_layout_is_stable() {
    assert_eq!(std::mem::size_of::<GpuFoliageInteractor>(), 32);
}

#[test]
fn foliage_crud_keeps_canonical_rows_and_relationships_generation_safe() {
    let mut scene = scene();
    let mut slots = Slots::new();
    let mut types = Rows::new();
    let mut layers = Rows::new();
    let material = scene.insert_material(Rows::new().take(&mut slots), material());
    let first_new = types.take(&mut slots);
    let mut desc = blades(material);
    desc.density = f(3.0);
    let first = scene.add_foliage_type(first_new, desc, cosines(&desc)).unwrap();
    let second_new = types.take(&mut slots);
    desc.density = f(7.0);
    let second = scene.add_foliage_type(second_new, desc, cosines(&desc)).unwrap();

    let authored = scene
        .add_foliage_layer(layers.take(&mut slots), layer(vec![first, second], 91))
        .unwrap();
    assert_eq!(scene.foliage.layer_projections.len(), 1);
    assert_eq!(
        scene.foliage.relations,
        vec![
            GpuFoliageLayerTypeRelation {
                compact_type_id: 0,
                canonical_type_row: first_new.gpu_row,
            },
            GpuFoliageLayerTypeRelation {
                compact_type_id: 1,
                canonical_type_row: second_new.gpu_row,
            },
        ]
    );

    scene.remove_foliage_type(first).unwrap();
    types.give(&mut slots, first_new);
    assert_eq!(scene.foliage.types.rows(), &[second_new.gpu_row]);
    assert_eq!(
        scene.foliage.relations,
        vec![GpuFoliageLayerTypeRelation {
            compact_type_id: 0,
            canonical_type_row: second_new.gpu_row,
        }]
    );
    assert_eq!(scene.foliage_layers_for_debug()[0].types, vec![second]);

    assert!(scene
        .add_foliage_layer(layers.take(&mut slots), layer(vec![first], 92))
        .is_err());
    assert!(scene.update_foliage_layer(authored, layer(vec![first], 93)).is_err());
    assert_eq!(scene.foliage.layers.get(authored).unwrap().seed, 91);

    let replacement_new = types.take(&mut slots);
    let replacement = add_type(&mut scene, replacement_new, material);
    assert_ne!(replacement, first, "reused entity slots must advance generation");
    assert_eq!(
        scene.foliage.types.row(replacement),
        Some(first_new.gpu_row),
        "component-local rows may be safely reused after despawn"
    );
}

#[test]
fn foliage_has_no_layer_cap_and_enforces_the_u8_type_boundary() {
    let mut scene = scene();
    let mut slots = Slots::new();
    let mut types = Rows::new();
    let mut layers = Rows::new();
    let material = scene.insert_material(Rows::new().take(&mut slots), material());
    let new = types.take(&mut slots);
    let foliage_type = add_type(&mut scene, new, material);

    for seed in 0..65 {
        scene
            .add_foliage_layer(layers.take(&mut slots), layer(vec![foliage_type], seed))
            .unwrap();
    }
    assert_eq!(scene.foliage_layer_count(), 65);
    assert_eq!(scene.foliage.layer_projections.len(), 65);
    assert_eq!(scene.foliage.relations.len(), 65);
    for (seed, projection) in scene.foliage.layer_projections.iter().enumerate() {
        assert_eq!(projection.seed, seed as u32);
        assert_eq!(projection.relation_offset, seed as u32);
        assert_eq!(projection.relation_count, 1);
    }

    for _ in 1..MAX_PACKED_FOLIAGE_TYPES {
        let new = types.take(&mut slots);
        add_type(&mut scene, new, material);
    }
    assert_eq!(scene.foliage_type_count(), 256);
    let desc = blades(material);
    assert!(scene.add_foliage_type(types.take(&mut slots), desc, cosines(&desc)).is_err());
    assert_eq!(
        scene.materials.get(material).unwrap().ref_count,
        256,
        "a rejected 257th type must not retain the material"
    );
}

#[test]
fn foliage_clear_removes_all_authority_and_wind_is_not_topology() {
    let mut scene = scene();
    let mut slots = Slots::new();
    let mut types = Rows::new();
    let mut interactors = Rows::new();
    let material = scene.insert_material(Rows::new().take(&mut slots), material());
    let new = types.take(&mut slots);
    let foliage_type = add_type(&mut scene, new, material);
    scene
        .add_foliage_layer(Rows::new().take(&mut slots), layer(vec![foliage_type], 17))
        .unwrap();
    let first_new = interactors.take(&mut slots);
    let first = scene.add_foliage_interactor(
        first_new,
        FoliageInteractor {
            position: [f(1.0), f(0.0), f(0.0)],
            radius: f(2.0),
            velocity: [f(0.0), f(1.0), f(0.0)],
        },
    );
    let second_new = interactors.take(&mut slots);
    scene.add_foliage_interactor(
        second_new,
        FoliageInteractor {
            position: [f(0.0), f(0.0), f(1.0)],
            radius: f(3.0),
            velocity: [f(-1.0), f(0.0), f(0.0)],
        },
    );
    scene.remove_foliage_interactor(first).unwrap();
    interactors.give(&mut slots, first_new);
    assert_eq!(scene.foliage.interactors.rows(), &[second_new.gpu_row]);
    let replacement = scene.add_foliage_interactor(
        interactors.take(&mut slots),
        FoliageInteractor {
            position: [f(0.0); 3],
            radius: f(1.0),
            velocity: [f(0.0); 3],
        },
    );
    assert_ne!(first, replacement);
    assert_eq!(scene.foliage.interactors.row(replacement), Some(first_new.gpu_row));

    let topology = scene.foliage.generation;
    let mut wind = scene.wind();
    wind.direction = [f(0.5), f(0.0), f(0.25)];
    wind.speed = f(4.0);
    scene.set_wind(wind);
    scene.advance_wind(f(0.25));
    assert_eq!(scene.foliage.generation, topology);

    clear(&mut scene);
    assert_eq!(scene.foliage_type_count(), 0);
    assert_eq!(scene.foliage_layer_count(), 0);
    assert_eq!(scene.foliage_interactor_count(), 0);
    assert!(scene.foliage.types.rows().is_empty());
    assert!(scene.foliage.layer_projections.is_empty());
    assert!(scene.foliage.relations.is_empty());
    assert!(scene.foliage.interactors.rows().is_empty());
    assert!(scene.materials.get(material).is_none());
}

#[test]
fn foliage_type_retains_and_releases_canonical_material() {
    let mut scene = scene();
    let mut slots = Slots::new();
    let material = scene.insert_material(Rows::new().take(&mut slots), material());
    let foliage = add_type(&mut scene, Rows::new().take(&mut slots), material);
    assert_eq!(scene.materials.get(material).unwrap().ref_count, 1);
    assert!(matches!(
        scene.remove_material(material),
        Err(SceneError::ResourceInUse { resource: "material" })
    ));

    scene
        .remove_foliage_type(foliage)
        .expect("foliage removal releases its material");
    assert!(scene.materials.get(material).is_none());
}

#[test]
fn editors_read_back_layers_and_interactors() {
    let mut scene = scene();
    let mut slots = Slots::new();
    let material = scene.insert_material(Rows::new().take(&mut slots), material());
    let kind = add_type(&mut scene, Rows::new().take(&mut slots), material);
    let mut layers = Rows::new();
    let id = scene
        .add_foliage_layer(layers.take(&mut slots), layer(vec![kind, kind], 5))
        .unwrap();
    let mut endless = layer(vec![kind], 6);
    endless.has_infinite_extent = true;
    endless.bounds = [[f(1.0), f(2.0), f(3.0)], [f(4.0), f(5.0), f(6.0)]];
    scene.add_foliage_layer(layers.take(&mut slots), endless).unwrap();
    let shown = scene.foliage_layers_for_debug();
    assert_eq!(shown.len(), 2);
    assert_eq!(shown[0].types, vec![kind, kind]);
    assert!(!shown[0].has_infinite_extent);
    assert_eq!(shown[1].bounds[0], [f(1.0), f(2.0), f(3.0)]);
    assert_eq!(shown[1].bounds[1], [f(4.0), f(5.0), f(6.0)]);
    assert!(shown[1].has_infinite_extent);
    assert_eq!(shown[1].seed, 6);
    scene.remove_foliage_layer(id).unwrap();
    assert!(scene.remove_foliage_layer(id).is_err());

    let body = FoliageInteractor {
        position: [f(1.0), f(2.0), f(3.0)],
        radius: f(0.5),
        velocity: [f(4.0), f(5.0), f(6.0)],
    };
    let pusher = scene.add_foliage_interactor(Rows::new().take(&mut slots), body);
    scene
        .update_foliage_interactor(pusher, [f(7.0), f(8.0), f(9.0)], [f(0.0); 3])
        .unwrap();
    let shown = scene.foliage_interactors_for_debug();
    assert_eq!(shown[0].position, [f(7.0), f(8.0), f(9.0)]);
    assert_eq!(shown[0].radius, f(0.5));
    assert_eq!(shown[0].velocity, [f(0.0); 3]);

    flush(&mut scene);
    let data = scene.foliage_frame_data().unwrap();
    assert_eq!(data.type_count, 1);
    assert_eq!(data.layer_count, 1);
    assert_eq!(data.interactor_count, 1);
    scene.remove_foliage_type(kind).unwrap();
    assert!(scene.foliage_frame_data().is_none());
}
