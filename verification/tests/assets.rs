//! Meshes, materials, textures, objects, groups and virtual geometry of a scene.
use helio::bake::{BakeLightKind, LightTypes};
use helio::draws::{MaterialFlagBits, MeshSlice};
use helio::errors::{SceneAssetError, SceneError};
use helio::float_bits::F32;
use helio::flush::FlushReport;
use helio::foliage::Wind;
use helio::group_edits::GroupMove;
use helio::groups::{GroupId, GroupMask};
use helio::handles::{Entity, Handle, MaterialId, MeshId, ObjectId, VirtualMeshId};
use helio::lights::GpuLight;
use helio::materials::{GpuMaterial, MaterialAsset};
use helio::objects::{ObjectDescriptor, NO_LIGHTMAP};
use helio::rows::{Movability, NewRow};
use helio::scene::Scene;
use helio::sectioned_objects::SectionPlacement;
use helio::setup::SceneConfig;
use helio::spaces::{identity_matrix, SpaceField};
use helio::virtual_objects::VirtualObjectDescriptor;

fn f(x: f32) -> F32 {
    F32 { bits: x.to_bits() }
}

/// Entity slots, as the store hands them out.
struct Slots {
    next: u32,
    free: Vec<Entity>,
}

impl Slots {
    fn new() -> Self {
        Slots { next: 0, free: Vec::new() }
    }

    fn take(&mut self) -> Entity {
        match self.free.pop() {
            Some(old) => Entity { index: old.index, generation: old.generation + 1 },
            None => {
                self.next += 1;
                Entity { index: self.next - 1, generation: 1 }
            }
        }
    }
}

/// Rows of one component, as the store hands them out.
struct Rows {
    next: u32,
    free: Vec<u32>,
}

impl Rows {
    fn new() -> Self {
        Rows { next: 0, free: Vec::new() }
    }

    fn take(&mut self, slots: &mut Slots) -> NewRow {
        let gpu_row = self.free.pop().unwrap_or_else(|| {
            self.next += 1;
            self.next - 1
        });
        NewRow { entity: slots.take(), gpu_row }
    }

    fn give(&mut self, slots: &mut Slots, gone: NewRow) {
        slots.free.push(gone.entity);
        self.free.push(gone.gpu_row);
    }
}

fn scene() -> Scene {
    Scene::new(SceneConfig {
        space_field: SpaceField { shift: 8, capacity: 32 },
        flag_bits: MaterialFlagBits { forward_shading: 1, transparent_only: 2, alpha_test: 4 },
        voxel_allocated_flag: 1,
        corona_capacity: 8,
        sprite_limits: (256, 4096),
        wind: Wind {
            direction: [f(1.0), f(0.0), f(0.0)],
            speed: f(1.0),
            gusts: [f(0.0); 4],
            time: f(0.0),
            prev_time: f(0.0),
        },
    })
}

fn flush(scene: &mut Scene) -> FlushReport {
    let measured = vec![f(1.0); scene.realtime_light_count()];
    scene.flush(&measured, &identity_matrix(), &identity_matrix(), 0)
}

fn clear(scene: &mut Scene) -> FlushReport {
    scene.clear(&identity_matrix(), &identity_matrix(), 0)
}

fn translation(x: f32, y: f32, z: f32) -> [F32; 16] {
    let mut matrix = identity_matrix();
    matrix[12] = f(x);
    matrix[13] = f(y);
    matrix[14] = f(z);
    matrix
}

const DEFAULT: GroupId = GroupId(0);
const STATIC: GroupId = GroupId(1);
const DYNAMIC: GroupId = GroupId(2);
const DEBUG: GroupId = GroupId(7);

const FORWARD: u32 = 1;
const ALPHA_TEST: u32 = 4;
const NORMAL_MAP: u32 = 64;

fn material(flags: u32) -> GpuMaterial {
    GpuMaterial { material_class: 0, flags, class_params: [f(0.0); 4], surface: [0; 16] }
}

fn slice() -> MeshSlice {
    MeshSlice { first_vertex: 0, vertex_count: 3, first_index: 0, index_count: 3 }
}

fn normal() -> [F32; 12] {
    let mut rows = [f(0.0); 12];
    rows[0] = f(1.0);
    rows[5] = f(1.0);
    rows[10] = f(1.0);
    rows
}

fn object(mesh: MeshId, material: MaterialId, groups: GroupMask) -> ObjectDescriptor {
    ObjectDescriptor {
        mesh,
        material,
        transform: identity_matrix(),
        bounds: [f(2.0), f(4.0), f(6.0), f(3.0)],
        flags: 0,
        groups,
        movability: Some(Movability::Movable),
        user_tag: 0,
    }
}

fn virtual_object(
    virtual_mesh: VirtualMeshId,
    material_id: MaterialId,
    groups: GroupMask,
    movability: Movability,
) -> VirtualObjectDescriptor {
    VirtualObjectDescriptor {
        virtual_mesh,
        material_id,
        transform: identity_matrix(),
        bounds: [f(1.0), f(2.0), f(3.0), f(4.0)],
        flags: 0,
        groups,
        movability: Some(movability),
    }
}

#[test]
fn transform_only_flush_keeps_topology_version_and_publishes_one_instance() {
    let mut scene = scene();
    let mut slots = Slots::new();
    let lod = scene.insert_mesh(slots.take(), slice());
    let hollow = scene.insert_virtual_mesh(slots.take(), None, 0);
    let bare = scene.insert_virtual_mesh(slots.take(), Some(lod), 0);
    let mesh = scene.insert_virtual_mesh(slots.take(), Some(lod), 1);
    let material_id = scene.insert_material(Rows::new().take(&mut slots), material(0));
    assert_ne!(material_id.slot(), 0, "entity slots and material rows must differ");
    // A mesh without geometry cannot be placed.
    let hollow_desc =
        virtual_object(hollow, material_id, GroupMask::none(), Movability::Static);
    assert_eq!(
        scene.insert_virtual_object(slots.take(), hollow_desc, normal()),
        Err(SceneError::InvalidHandle { resource: "virtual_mesh_geometry" })
    );
    // A row that is not drawn must not shift the compact projection slot used by the
    // valid object that follows it.
    let bare_desc = virtual_object(bare, material_id, GroupMask::none(), Movability::Static);
    scene.insert_virtual_object(slots.take(), bare_desc, normal()).unwrap();
    let mut desc = virtual_object(mesh, material_id, GroupMask::none(), Movability::Movable);
    desc.bounds = [f(0.5), f(0.0), f(0.5), f(1.0)];
    let id = scene.insert_virtual_object(slots.take(), desc, normal()).unwrap();
    assert_eq!(scene.virtual_geometry.objects.get(id).unwrap().instance.material_id, 0);
    flush(&mut scene);
    assert_eq!(scene.virtual_geometry.projection_slots, vec![u32::MAX, 0]);

    let topology_version = scene.virtual_geometry.buffer_version;
    let instance_version = scene.virtual_geometry.instance_version;
    let moved = translation(4.0, 5.0, 6.0);
    scene.update_virtual_object_transform(id, moved, normal()).unwrap();

    assert!(!scene.virtual_geometry.dirty);
    assert_eq!(scene.virtual_geometry.instance_dirty_range, Some((0, 1)));
    flush(&mut scene);

    assert_eq!(scene.virtual_geometry.buffer_version, topology_version);
    assert_eq!(scene.virtual_geometry.instance_version, instance_version + 1);
    assert_eq!(scene.virtual_geometry.published_dirty_range, Some((0, 1)));
    assert_eq!(scene.virtual_geometry.cpu_instances[0].model, moved);

    let topology_version = scene.virtual_geometry.buffer_version;
    let instance_version = scene.virtual_geometry.instance_version;
    let cull_signature_version = scene.virtual_geometry.cull_signature_version;

    scene.update_material(material_id, material(NORMAL_MAP)).unwrap();
    assert_eq!(scene.virtual_geometry.cull_signature_version, cull_signature_version);

    scene.update_material(material_id, material(NORMAL_MAP | ALPHA_TEST)).unwrap();
    assert_eq!(scene.virtual_geometry.cull_signature_version, cull_signature_version + 1);
    assert_eq!(scene.virtual_geometry.buffer_version, topology_version);
    assert_eq!(scene.virtual_geometry.instance_version, instance_version);
    assert!(!scene.virtual_geometry.dirty);

    flush(&mut scene);
    assert_eq!(scene.virtual_geometry.cull_signature_version, cull_signature_version + 1);
    assert_eq!(scene.virtual_geometry.buffer_version, topology_version);
    assert_eq!(scene.virtual_geometry.instance_version, instance_version);

    scene
        .set_material_class(material_id, material(0).material_class, 0, Some(NORMAL_MAP))
        .expect("hot-disable alpha test through material-class API");
    assert_eq!(scene.virtual_geometry.cull_signature_version, cull_signature_version + 2);
    assert!(!scene.objects.dirty);
    flush(&mut scene);
    assert_eq!(scene.virtual_geometry.cull_signature_version, cull_signature_version + 2);
    assert_eq!(scene.virtual_geometry.buffer_version, topology_version);
    assert_eq!(scene.virtual_geometry.instance_version, instance_version);
}

#[test]
fn group_transform_updates_virtual_authority_and_bounded_instance_projection() {
    let mut scene = scene();
    let mut slots = Slots::new();
    let classic_mesh = scene.insert_mesh(slots.take(), slice());
    let mesh = scene.insert_virtual_mesh(slots.take(), Some(classic_mesh), 1);
    let material_id = scene.insert_material(Rows::new().take(&mut slots), material(0));
    let groups = GroupMask::from_id(DYNAMIC);
    let classic = scene
        .insert_object(
            Rows::new().take(&mut slots),
            object(classic_mesh, material_id, groups),
            normal(),
        )
        .expect("valid classic grouped object");
    let movable = scene
        .insert_virtual_object(
            slots.take(),
            virtual_object(mesh, material_id, groups, Movability::Movable),
            normal(),
        )
        .expect("valid movable VG object");
    let mut fixed_desc = virtual_object(mesh, material_id, groups, Movability::Static);
    fixed_desc.bounds = [f(-1.0), f(0.0), f(2.0), f(1.0)];
    let fixed = scene
        .insert_virtual_object(slots.take(), fixed_desc, normal())
        .expect("valid static VG object");
    flush(&mut scene);

    scene.bake_invalidated = false;
    scene.objects.static_dirty = false;
    let topology_version = scene.virtual_geometry.buffer_version;
    let instance_version = scene.virtual_geometry.instance_version;
    let movable_generation = scene.objects.movable_generation;

    let expected_model = translation(5.0, -2.0, 1.0);
    let moved_to = |x: f32, y: f32, z: f32| GroupMove {
        model: expected_model,
        normal_mat: normal(),
        center: [f(x), f(y), f(z)],
    };
    scene.move_group(
        DYNAMIC,
        &vec![moved_to(7.0, 2.0, 7.0)],
        &vec![moved_to(6.0, 0.0, 4.0), moved_to(4.0, -2.0, 3.0)],
    );

    assert_eq!(scene.get_object_transform(classic).unwrap(), expected_model);
    assert_eq!(
        scene.get_object_bounds(classic).unwrap(),
        [f(7.0), f(2.0), f(7.0), f(3.0)]
    );
    let movable_record = scene.virtual_geometry.objects.get(movable).unwrap();
    let fixed_record = scene.virtual_geometry.objects.get(fixed).unwrap();
    assert_eq!(movable_record.instance.model, expected_model);
    assert_eq!(fixed_record.instance.model, expected_model);
    assert_eq!(movable_record.instance.bounds, [f(6.0), f(0.0), f(4.0), f(4.0)]);
    assert_eq!(fixed_record.instance.bounds, [f(4.0), f(-2.0), f(3.0), f(1.0)]);
    assert_eq!(movable_record.instance.prev_model, identity_matrix());
    assert_eq!(fixed_record.instance.prev_model, identity_matrix());
    assert_eq!(scene.virtual_geometry.instance_dirty_range, Some((0, 2)));
    assert_eq!(scene.objects.movable_generation, movable_generation + 1);
    assert!(scene.objects.static_dirty);
    assert!(scene.bake_invalidated);

    flush(&mut scene);

    assert_eq!(scene.virtual_geometry.buffer_version, topology_version);
    assert_eq!(scene.virtual_geometry.instance_version, instance_version + 1);
    assert_eq!(scene.virtual_geometry.published_dirty_range, Some((0, 2)));
    assert_eq!(scene.virtual_geometry.cpu_instances[0].model, expected_model);
    assert_eq!(scene.virtual_geometry.cpu_instances[1].model, expected_model);
}

#[test]
fn scenedb_visibility_authority_drives_the_classic_gpu_projection() {
    let mut scene = scene();
    let mut slots = Slots::new();
    let groups = GroupMask::from_id(DEBUG).with(DEFAULT);
    let mesh = scene.insert_mesh(slots.take(), slice());
    let material_id = scene.insert_material(Rows::new().take(&mut slots), material(0));
    scene
        .insert_object(Rows::new().take(&mut slots), object(mesh, material_id, groups), normal())
        .unwrap();
    flush(&mut scene);

    assert_eq!(scene.objects.lists.visibility, vec![1]);
    assert_eq!(scene.hidden_groups, GroupMask::none());

    scene.set_group_visibility(groups, false);
    assert_eq!(scene.objects.lists.visibility, vec![0]);
    assert_eq!(scene.hidden_groups, groups);

    scene.show_group(DEBUG);
    assert_eq!(scene.objects.lists.visibility, vec![0]);
    scene.show_group(DEFAULT);
    assert_eq!(scene.objects.lists.visibility, vec![1]);
}

#[test]
fn clear_resets_visibility_authority_before_new_scene_content() {
    let mut scene = scene();
    let mut slots = Slots::new();
    scene.hide_group(DEBUG);
    assert!(scene.is_group_hidden(DEBUG));

    clear(&mut scene);

    assert!(!scene.is_group_hidden(DEBUG));
    assert_eq!(scene.hidden_groups, GroupMask::none());
    assert!(scene.objects.lists.visibility.is_empty());

    let mesh = scene.insert_mesh(slots.take(), slice());
    let material_id = scene.insert_material(Rows::new().take(&mut slots), material(0));
    let desc = object(mesh, material_id, GroupMask::from_id(DEBUG));
    scene.insert_object(Rows::new().take(&mut slots), desc, normal()).unwrap();
    flush(&mut scene);
    assert_eq!(scene.objects.lists.visibility, vec![1]);
}

#[test]
fn scenedb_visibility_authority_drives_virtual_geometry_without_topology_rebuild() {
    let mut scene = scene();
    let mut slots = Slots::new();
    let groups = GroupMask::from_id(DEBUG).with(DEFAULT);
    let lod = scene.insert_mesh(slots.take(), slice());
    let mesh = scene.insert_virtual_mesh(slots.take(), Some(lod), 1);
    let material_id = scene.insert_material(Rows::new().take(&mut slots), material(0));
    let desc = virtual_object(mesh, material_id, groups, Movability::Static);
    scene.insert_virtual_object(slots.take(), desc, normal()).unwrap();
    flush(&mut scene);

    assert_eq!(scene.virtual_geometry.cpu_visibility, vec![1]);
    let topology_version = scene.virtual_geometry.buffer_version;
    let initial_cull_version = scene.virtual_geometry.cull_signature_version;

    scene.set_group_visibility(groups, false);
    assert_eq!(scene.virtual_geometry.cpu_visibility, vec![0]);
    assert_eq!(scene.virtual_geometry.buffer_version, topology_version);
    assert_eq!(scene.virtual_geometry.cull_signature_version, initial_cull_version + 1);

    // One hidden membership remains, so this policy change does not trigger an
    // unnecessary upload.
    scene.show_group(DEBUG);
    assert_eq!(scene.virtual_geometry.cpu_visibility, vec![0]);
    assert_eq!(scene.virtual_geometry.cull_signature_version, initial_cull_version + 1);

    scene.show_group(DEFAULT);
    assert_eq!(scene.virtual_geometry.cpu_visibility, vec![1]);
    assert_eq!(scene.virtual_geometry.buffer_version, topology_version);
    assert_eq!(scene.virtual_geometry.cull_signature_version, initial_cull_version + 2);
    assert_eq!(scene.hidden_groups, GroupMask::none());
}

#[test]
fn group_membership_is_edited_per_object() {
    let mut scene = scene();
    let mut slots = Slots::new();
    let mesh = scene.insert_mesh(slots.take(), slice());
    let material_id = scene.insert_material(Rows::new().take(&mut slots), material(0));
    let id = scene
        .insert_object(
            Rows::new().take(&mut slots),
            object(mesh, material_id, GroupMask::none()),
            normal(),
        )
        .unwrap();
    scene.add_object_to_group(id, STATIC).unwrap();
    scene.add_object_to_group(id, DEBUG).unwrap();
    assert_eq!(scene.object_groups(id).unwrap(), GroupMask((1 << 1) | (1 << 7)));
    scene.remove_object_from_group(id, STATIC).unwrap();
    assert_eq!(scene.object_groups(id).unwrap(), GroupMask::from_id(DEBUG));
    scene.hide_group(DEBUG);
    flush(&mut scene);
    assert_eq!(scene.objects.lists.visibility, vec![0]);
    scene.set_object_groups(id, GroupMask::none()).unwrap();
    assert_eq!(scene.objects.lists.visibility, vec![1]);
    let gone = ObjectId::from_raw(90, 1);
    assert_eq!(
        scene.add_object_to_group(gone, DEBUG),
        Err(SceneError::InvalidHandle { resource: "object" })
    );
    assert!(scene.object_groups(gone).is_err());
}

#[test]
fn objects_hold_their_assets_until_they_leave() {
    let mut scene = scene();
    let mut slots = Slots::new();
    let mut materials = Rows::new();
    let mesh = scene.insert_mesh(slots.take(), slice());
    let first = scene.insert_material(materials.take(&mut slots), material(0));
    let second = scene.insert_material(materials.take(&mut slots), material(FORWARD));
    let mut desc = object(mesh, first, GroupMask::none());
    desc.user_tag = 55;
    let id = scene.insert_object(Rows::new().take(&mut slots), desc, normal()).unwrap();
    assert_eq!(scene.remove_mesh(mesh), Err(SceneError::ResourceInUse { resource: "mesh" }));
    assert_eq!(
        scene.remove_material(first),
        Err(SceneError::ResourceInUse { resource: "material" })
    );
    assert_eq!(scene.iter_objects_for_editor()[0].3, 55);
    assert_eq!(scene.object_by_tag(55), Some(id));

    scene.update_object_material(id, second).unwrap();
    assert_eq!(scene.materials.get(first).unwrap().ref_count, 0);
    scene.remove_material(first).unwrap();
    assert_eq!(scene.materials.get(second).unwrap().ref_count, 1);
    flush(&mut scene);
    assert_eq!(scene.objects.lists.forward_ranges, vec![(0, 0, 0, 1)]);
    assert_eq!(scene.drawn_mesh_stats().0, 3);

    let moved = translation(1.0, 2.0, 3.0);
    scene.update_object_transform(id, moved, normal()).unwrap();
    scene.update_object_bounds(id, [f(9.0); 4]).unwrap();
    let shown = scene.get_object_descriptor(id).unwrap();
    assert_eq!(shown.transform, moved);
    assert_eq!(shown.bounds, [f(9.0); 4]);
    assert_eq!(shown.user_tag, 55);
    assert_eq!(shown.movability, Some(Movability::Movable));

    scene.remove_object(id).unwrap();
    assert_eq!(
        scene.remove_object(id),
        Err(SceneError::InvalidHandle { resource: "object" })
    );
    assert_eq!(scene.object_by_tag(55), None);
    scene.remove_mesh(mesh).unwrap();
    scene.remove_material(second).unwrap();
    assert_eq!(scene.remove_mesh(mesh), Err(SceneError::InvalidHandle { resource: "mesh" }));
}

#[test]
fn static_objects_do_not_move() {
    let mut scene = scene();
    let mut slots = Slots::new();
    let mesh = scene.insert_mesh(slots.take(), slice());
    let material_id = scene.insert_material(Rows::new().take(&mut slots), material(0));
    let mut desc = object(mesh, material_id, GroupMask::none());
    desc.movability = None;
    let id = scene.insert_object(Rows::new().take(&mut slots), desc, normal()).unwrap();
    scene.update_object_transform(id, translation(1.0, 0.0, 0.0), normal()).unwrap();
    let now = scene.get_object_transform(id).unwrap();
    assert_eq!(now, identity_matrix());
    assert_eq!(
        scene.update_object_transform(ObjectId::from_raw(4, 9), now, normal()),
        Err(SceneError::InvalidHandle { resource: "object" })
    );
}

#[test]
fn sectioned_asset_keeps_shared_geometry_until_asset_removal() {
    let mut scene = scene();
    let mut slots = Slots::new();
    let mut materials = Rows::new();
    let mut objects = Rows::new();
    let asset = slots.take();
    let sections = vec![(slots.take(), slice()), (slots.take(), slice())];
    let multi_mesh = scene.insert_sectioned_mesh(asset, &sections);
    let section_meshes = scene
        .sectioned_section_mesh_ids(multi_mesh)
        .expect("sectioned asset component")
        .clone();
    assert_eq!(section_meshes.len(), 2);

    let placement = SectionPlacement {
        transform: identity_matrix(),
        normal_mat: normal(),
        bounds: [f(0.0), f(0.0), f(0.0), f(1.0)],
        movability: None,
    };
    let material_id = scene.insert_material(materials.take(&mut slots), material(0));
    let rows = vec![objects.take(&mut slots), objects.take(&mut slots)];
    let instance = scene
        .insert_sectioned_object(
            slots.take(),
            &rows,
            multi_mesh,
            &vec![material_id, material_id],
            placement,
        )
        .expect("first placement");
    let first_section = ObjectId(rows[0].entity);
    assert_eq!(scene.section_instance_for_object(first_section), Some(instance));
    assert!(matches!(
        scene.remove_object(first_section),
        Err(SceneError::InvalidOperation { .. })
    ));
    assert_eq!(
        scene.remove_sectioned_mesh(multi_mesh),
        Err(SceneError::ResourceInUse { resource: "multi_mesh" })
    );
    let moved = translation(0.0, 7.0, 0.0);
    scene.update_sectioned_object_transform(instance, moved, normal()).unwrap();
    assert_eq!(
        scene.get_sectioned_instance_transform(instance),
        Some(identity_matrix()),
        "sections that are fixed stay where they are"
    );
    assert_eq!(
        scene.get_sectioned_instance_bounds(instance),
        Some([f(0.0), f(0.0), f(0.0), f(1.0)])
    );

    scene.remove_sectioned_object(instance).expect("aggregate removal");
    assert!(section_meshes.iter().all(|&mesh| scene.meshes.get(mesh).is_some()));

    // Reusing the asset with a fresh material proves its meshes stayed valid.
    let replacement_material = scene.insert_material(materials.take(&mut slots), material(0));
    let rows = vec![objects.take(&mut slots), objects.take(&mut slots)];
    let replacement = scene
        .insert_sectioned_object(
            slots.take(),
            &rows,
            multi_mesh,
            &vec![replacement_material, replacement_material],
            placement,
        )
        .expect("second placement reuses retained geometry");
    scene.remove_sectioned_object(replacement).unwrap();
    scene.remove_sectioned_mesh(multi_mesh).unwrap();
    assert!(section_meshes.iter().all(|&mesh| scene.meshes.get(mesh).is_none()));
}

#[test]
fn a_duplicate_shares_the_asset_and_its_materials() {
    let mut scene = scene();
    let mut slots = Slots::new();
    let mut objects = Rows::new();
    let asset = slots.take();
    let sections = vec![(slots.take(), slice())];
    let multi_mesh = scene.insert_sectioned_mesh(asset, &sections);
    let material_id = scene.insert_material(Rows::new().take(&mut slots), material(0));
    let placement = SectionPlacement {
        transform: translation(1.0, 1.0, 1.0),
        normal_mat: normal(),
        bounds: [f(0.0), f(0.0), f(0.0), f(1.0)],
        movability: Some(Movability::Movable),
    };
    let rows = vec![objects.take(&mut slots)];
    let first = scene
        .insert_sectioned_object(slots.take(), &rows, multi_mesh, &vec![material_id], placement)
        .unwrap();
    let rows = vec![objects.take(&mut slots)];
    let second = scene
        .duplicate_sectioned_object(first, slots.take(), &rows, placement)
        .unwrap();
    assert_ne!(first, second);
    assert_eq!(scene.materials.get(material_id).unwrap().ref_count, 2);
    scene.remove_sectioned_object(first).unwrap();
    assert_eq!(
        scene.get_sectioned_instance_transform(second),
        Some(translation(1.0, 1.0, 1.0))
    );
    assert_eq!(scene.get_sectioned_instance_transform(first), None);
}

#[test]
fn clear_sweeps_unplaced_virtual_mesh_assets_and_once_handoff_lods() {
    let mut scene = scene();
    let mut slots = Slots::new();
    let lod = scene.insert_mesh(slots.take(), slice());
    let virtual_mesh = scene.insert_virtual_mesh(slots.take(), Some(lod), 1);
    assert!(scene.meshes.get(lod).is_some());

    clear(&mut scene);

    assert!(scene.virtual_geometry.meshes.get(virtual_mesh).is_none());
    assert!(scene.meshes.get(lod).is_none());
}

#[test]
fn clear_sweeps_unplaced_static_and_dynamic_mesh_assets() {
    let mut scene = scene();
    let mut slots = Slots::new();
    let static_mesh = scene.insert_mesh(slots.take(), slice());
    let dynamic_mesh = scene.insert_mesh(slots.take(), slice());
    assert!(scene.meshes.get(static_mesh).is_some());
    assert!(scene.meshes.get(dynamic_mesh).is_some());

    clear(&mut scene);

    assert!(scene.meshes.get(static_mesh).is_none());
    assert!(scene.meshes.get(dynamic_mesh).is_none());
}

#[test]
fn scene_automatic_texture_keys_follow_scenedb_high_water_across_clear() {
    let mut scene = scene();
    let mut slots = Slots::new();
    // The store hands out keys above the greatest automatic one, and never again.
    let explicit = scene
        .insert_texture_with_asset_key(1, Ok(slots.take()))
        .expect("explicit texture");
    assert_eq!(scene.texture_by_asset_key(1), Some(explicit));
    assert_eq!(scene.texture_asset_key(explicit), Some(1));
    assert!(matches!(
        scene.insert_texture_with_asset_key(
            1,
            Err(SceneAssetError::DuplicateTextureAsset { asset_key: 1 })
        ),
        Err(SceneError::DuplicateTextureAssetKey { asset_key: 1 })
    ));
    let automatic = scene.insert_texture(Ok(2), Ok(slots.take())).unwrap();
    assert_eq!(scene.texture_asset_key(automatic), Some(2));
    assert_eq!(scene.textures.get(automatic).unwrap().asset_key, 2);
    assert_ne!(explicit, automatic);

    clear(&mut scene);
    assert_eq!(scene.texture_by_asset_key(1), None);
    assert_eq!(scene.texture_asset_key(explicit), None);

    let after_clear = scene.insert_texture(Ok(3), Ok(slots.take())).unwrap();
    assert_eq!(scene.textures.get(after_clear).unwrap().asset_key, 3);

    scene
        .insert_texture_with_asset_key(u128::MAX, Ok(slots.take()))
        .expect("u128::MAX remains a valid explicit identity");
    let after_explicit_max = scene.insert_texture(Ok(4), Ok(slots.take())).unwrap();
    assert_eq!(scene.texture_asset_key(after_explicit_max), Some(4));
    assert_eq!(
        scene.insert_texture(Err(SceneAssetError::TextureAssetKeyExhausted), Ok(slots.take())),
        Err(SceneError::TextureAssetKeyExhausted)
    );
}

#[test]
fn clear_preserves_scenedb_radiant_assets_and_render_projection() {
    let mut scene = scene();
    let view = identity_matrix();
    assert!(scene.flush(&[], &view, &view, 1).graphs_changed);
    assert_eq!(scene.published_graph_epoch, 1);
    assert!(scene.flush(&[], &view, &view, 2).graphs_changed);
    assert_eq!(scene.published_graph_epoch, 2);
    assert!(!scene.flush(&[], &view, &view, 2).graphs_changed);

    let report = scene.clear(&view, &view, 2);
    assert!(!report.graphs_changed, "clear keeps what was published of the graphs");
    assert_eq!(scene.published_graph_epoch, 2);
}

#[test]
fn textures_are_held_by_the_materials_that_name_them() {
    let mut scene = scene();
    let mut slots = Slots::new();
    let texture = scene.insert_texture(Ok(1), Ok(slots.take())).unwrap();
    let mut textures = [None; 7];
    textures[0] = Some(texture);
    textures[3] = Some(texture);
    let asset = MaterialAsset { gpu: material(0), textures };
    let id = scene
        .insert_material_asset(Rows::new().take(&mut slots), asset)
        .unwrap();
    assert_eq!(scene.textures.get(texture).unwrap().ref_count, 2);
    assert_eq!(
        scene.remove_texture(texture),
        Err(SceneError::ResourceInUse { resource: "texture" })
    );
    scene
        .update_material_asset(id, MaterialAsset { gpu: material(0), textures: [None; 7] })
        .unwrap();
    assert_eq!(scene.textures.get(texture).unwrap().ref_count, 0);
    scene.remove_texture(texture).unwrap();
    assert!(scene.remove_texture(texture).is_err());
    let mut stale = [None; 7];
    stale[6] = Some(texture);
    assert!(scene
        .update_material_asset(id, MaterialAsset { gpu: material(0), textures: stale })
        .is_err());
    scene.set_material_class(id, 3, 77, Some(FORWARD)).unwrap();
    scene.update_material_class_params(id, [f(2.0); 4]).unwrap();
    let record = scene.materials.get(id).unwrap();
    assert_eq!(record.gpu.material_class, 3);
    assert_eq!(record.graph_hash, 77);
    assert_eq!(record.gpu.class_params, [f(2.0); 4]);
    scene.remove_material(id).unwrap();
    assert_eq!(
        scene.remove_material(id),
        Err(SceneError::InvalidHandle { resource: "material" })
    );
}

fn lamp(kind: u32) -> GpuLight {
    GpuLight {
        position_range: [f(1.0), f(2.0), f(3.0), f(10.0)],
        direction_outer: [f(0.0), f(-1.0), f(0.0), f(0.5)],
        color_intensity: [f(1.0), f(0.5), f(0.25), f(4.0)],
        inner_angle: f(0.25),
        light_type: kind,
        shadow_index: u32::MAX,
        shading: [0; 8],
    }
}

#[test]
fn a_bake_gathers_what_stands_still() {
    let mut scene = scene();
    let mut slots = Slots::new();
    let mut objects = Rows::new();
    let mut lights = Rows::new();
    let mesh = scene.insert_mesh(slots.take(), slice());
    let material_id = scene.insert_material(Rows::new().take(&mut slots), material(0));
    for (tag, movability) in [
        (1, Some(Movability::Static)),
        (2, Some(Movability::Movable)),
        (3, Some(Movability::Static)),
        (4, Some(Movability::Static)),
    ] {
        let mut desc = object(mesh, material_id, GroupMask::none());
        desc.movability = movability;
        desc.user_tag = tag;
        scene.insert_object(objects.take(&mut slots), desc, normal()).unwrap();
    }
    scene.insert_light_with_movability(
        lights.take(&mut slots),
        lamp(1),
        Some(Movability::Static),
        0,
    );
    scene.insert_light_with_movability(
        lights.take(&mut slots),
        lamp(1),
        Some(Movability::Movable),
        0,
    );
    scene.insert_light_with_movability(
        lights.take(&mut slots),
        lamp(2),
        Some(Movability::Stationary),
        0,
    );
    assert!(scene.is_bake_invalidated());
    let plan = scene
        .build_static_bake_scene(&vec![true; 4], LightTypes { point: 1, spot: 2 });
    assert!(!scene.is_bake_invalidated());
    assert_eq!(plan.meshes.len(), 3);
    assert_eq!(plan.columns, 2);
    assert_eq!(plan.rows, 2);
    let cells = plan.meshes.iter().map(|m| m.cell).collect::<Vec<_>>();
    assert_eq!(cells, vec![(0, 0), (1, 0), (0, 1)]);
    // The light that can move is left out.
    assert_eq!(plan.lights.len(), 2);
    assert!(matches!(plan.lights[0].kind, BakeLightKind::Point { .. }));
    assert!(matches!(plan.lights[1].kind, BakeLightKind::Spot { .. }));

    let picked = scene.iter_pickable_objects();
    assert_eq!(picked.len(), 4);
    assert_eq!(picked[1].user_tag, 2);
    assert_eq!(picked[1].mesh_id, mesh);
    assert!(picked[1].space.is_none());

    // The last region of the mesh lights what does not move.
    let slot = mesh.slot() as u64;
    scene.update_lightmap_indices(&vec![[slot, 0], [slot, 0], [slot, 1], [slot + 1, 0]]);
    let indices = scene
        .objects
        .records
        .value_by_slot
        .iter()
        .map(|r| r.lightmap_index)
        .collect::<Vec<_>>();
    assert_eq!(indices, vec![1, NO_LIGHTMAP, 1, 1]);
    scene.update_lightmap_indices(&vec![]);
    assert_eq!(scene.objects.records.value_by_slot[0].lightmap_index, NO_LIGHTMAP);
}

#[test]
fn a_second_flush_changes_nothing() {
    let mut scene = scene();
    let mut slots = Slots::new();
    let mesh = scene.insert_mesh(slots.take(), slice());
    let material_id = scene.insert_material(Rows::new().take(&mut slots), material(0));
    let desc = object(mesh, material_id, GroupMask::none());
    scene.insert_object(Rows::new().take(&mut slots), desc, normal()).unwrap();
    let report = flush(&mut scene);
    assert_eq!(report.objects, 1);
    let topology = scene.objects.topology_generation;
    let order = scene.objects.lists.order.clone();
    flush(&mut scene);
    assert_eq!(scene.objects.topology_generation, topology);
    assert_eq!(scene.objects.lists.order, order);
    assert!(!scene.objects.dirty);
}

#[test]
fn clearing_tells_of_the_objects_that_went() {
    let mut scene = scene();
    let mut slots = Slots::new();
    let mut rows = Rows::new();
    flush(&mut scene);
    let empty = scene.objects.topology_generation;
    clear(&mut scene);
    assert!(!scene.bake_invalidated);
    assert_eq!(scene.objects.topology_generation, empty);

    let mesh = scene.insert_mesh(slots.take(), slice());
    let material_id = scene.insert_material(Rows::new().take(&mut slots), material(0));
    let desc = ObjectDescriptor {
        movability: Some(Movability::Movable),
        ..object(mesh, material_id, GroupMask::none())
    };
    scene.insert_object(rows.take(&mut slots), desc, normal()).unwrap();
    flush(&mut scene);
    let drawn = scene.objects.topology_generation;
    scene.bake_invalidated = false;
    clear(&mut scene);
    assert!(!scene.bake_invalidated);
    assert_eq!(scene.objects.topology_generation, drawn + 1);

    let mesh = scene.insert_mesh(slots.take(), slice());
    let material_id = scene.insert_material(Rows::new().take(&mut slots), material(0));
    let desc = ObjectDescriptor {
        movability: Some(Movability::Static),
        flags: 1,
        ..object(mesh, material_id, GroupMask::none())
    };
    scene.insert_object(rows.take(&mut slots), desc, normal()).unwrap();
    flush(&mut scene);
    assert_eq!(scene.objects.shadow.static_sources.len(), 1);
    let shadows = scene.objects.shadow.static_generation;
    scene.bake_invalidated = false;
    clear(&mut scene);
    assert!(scene.bake_invalidated);
    assert_eq!(scene.objects.shadow.static_generation, shadows + 1);
    assert!(scene.objects.shadow.static_sources.is_empty());
}

#[test]
fn tags_find_what_bears_them() {
    let mut scene = scene();
    let mut slots = Slots::new();
    let mut rows = Rows::new();
    let mesh = scene.insert_mesh(slots.take(), slice());
    let material_id = scene.insert_material(Rows::new().take(&mut slots), material(0));
    let mut ids = Vec::new();
    for user_tag in [0, 7, 7, 9] {
        let desc = ObjectDescriptor { user_tag, ..object(mesh, material_id, GroupMask::none()) };
        ids.push(scene.insert_object(rows.take(&mut slots), desc, normal()).unwrap());
    }
    // The tag 0 stands for no tag.
    assert_eq!(scene.object_by_tag(0), None);
    assert_eq!(scene.object_by_tag(8), None);
    assert_eq!(scene.object_by_tag(9), Some(ids[3]));
    assert!(scene.object_by_tag(7) == Some(ids[1]) || scene.object_by_tag(7) == Some(ids[2]));
    scene.remove_object(ids[1]).unwrap();
    assert_eq!(scene.object_by_tag(7), Some(ids[2]));
    scene.remove_object(ids[2]).unwrap();
    assert_eq!(scene.object_by_tag(7), None);
    assert_eq!(scene.object_by_tag(9), Some(ids[3]));
}
