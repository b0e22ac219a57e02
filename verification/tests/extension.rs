//! Application-owned entities, components and subsystems of a scene.
use helio::actors::SceneActorId;
use helio::draws::MaterialFlagBits;
use helio::extension::{
    component_missing, policy_matches, subsystem_missing, ComponentType,
    ExtensionComponentPolicy, ExtensionSubsystemStore, MirrorMode, SceneDataError,
};
use helio::extension_views::{buffer, field_buffer, GpuColumn};
use helio::float_bits::F32;
use helio::foliage::Wind;
use helio::handles::{Entity, SceneExtensionEntity};
use helio::lifecycle::ActorAttachment;
use helio::scene::Scene;
use helio::setup::SceneConfig;
use helio::spaces::{identity_matrix, SpaceField};

fn f(x: f32) -> F32 {
    F32 { bits: x.to_bits() }
}

fn scene() -> Scene {
    Scene::new(SceneConfig {
        space_field: SpaceField { shift: 8, capacity: 32 },
        flag_bits: MaterialFlagBits { forward_shading: 1, transparent_only: 2, alpha_test: 4 },
        voxel_allocated_flag: 1,
        corona_capacity: 8,
        sprite_limits: (256, 4096),
        wind: Wind {
            direction: [f(1.0), f(0.0), f(0.0)],
            speed: f(1.0),
            gusts: [f(0.0); 4],
            time: f(0.0),
            prev_time: f(0.0),
        },
    })
}

const DIRTY_BUFFER_KEY: &str = "helio.test.extension.dirty.value";
const ONCE_BUFFER_KEY: &str = "helio.test.extension.once.value";

fn component(key: u64, name: &'static str, columns: Vec<MirrorMode>) -> ComponentType {
    ComponentType { key, name, columns, registered: true }
}

fn cpu_payload() -> ComponentType {
    component(1, "CpuPayload", vec![])
}

fn dirty_payload() -> ComponentType {
    component(2, "DirtyPayload", vec![MirrorMode::DirtyTracked])
}

fn once_payload() -> ComponentType {
    component(3, "OncePayload", vec![MirrorMode::Once])
}

fn mixed_payload() -> ComponentType {
    component(4, "MixedPayload", vec![MirrorMode::DirtyTracked, MirrorMode::Once])
}

fn extension(index: u32) -> SceneExtensionEntity {
    SceneExtensionEntity(Entity { index, generation: 1 })
}

#[test]
fn cpu_extension_crud_is_in_place_and_domain_checked() {
    let mut scene = scene();
    let ty = cpu_payload();
    let entity = scene.data.insert_cpu(extension(0), &ty).unwrap();
    assert_eq!(entity, extension(0));

    scene.data.edit_cpu(entity, &ty).unwrap();
    assert!(scene.data.has(entity, ty.key));
    assert_eq!(scene.data.query(ty.key), vec![entity]);

    scene.data.remove_component(entity, &ty).unwrap();
    assert!(matches!(
        scene.data.remove_component(entity, &ty),
        Err(SceneDataError::ComponentMissing { .. })
    ));
    assert!(!scene.data.has(entity, ty.key));
    scene.despawn(entity).unwrap();
    assert!(!scene.data.is_alive(entity));
    assert_eq!(scene.despawn(entity), Err(SceneDataError::InvalidEntity));
}

#[test]
fn subsystem_payload_crud_rejects_duplicates_and_reports_missing_types() {
    let mut scene = scene();
    let data = &mut scene.data;
    let (key, name) = (77, "SubsystemPayload");
    assert!(data.get_subsystem(key).is_none());
    assert!(matches!(
        data.edit_subsystem(key, name),
        Err(SceneDataError::SubsystemMissing { subsystem: "SubsystemPayload" })
    ));
    assert!(matches!(
        data.remove_subsystem(key, name),
        Err(SceneDataError::SubsystemMissing { .. })
    ));

    data.insert_subsystem(key, name, b"first".to_vec()).unwrap();
    assert!(matches!(
        data.insert_subsystem(key, name, b"duplicate".to_vec()),
        Err(SceneDataError::SubsystemAlreadyPresent { .. })
    ));
    assert_eq!(data.get_subsystem(key).unwrap(), b"first");

    let payload = data.edit_subsystem(key, name).unwrap();
    let old = std::mem::replace(payload, b"edited".to_vec());
    assert_eq!(old, b"first");
    let removed = data.remove_subsystem(key, name).unwrap();
    assert_eq!(removed, b"edited");
    assert!(data.get_subsystem(key).is_none());
}

#[test]
fn subsystems_of_different_types_do_not_meet() {
    let mut store: ExtensionSubsystemStore<u32> = ExtensionSubsystemStore::new();
    assert!(store.insert(1, 10));
    assert!(store.insert(2, 20));
    assert!(!store.insert(1, 30));
    *store.get_mut(2).unwrap() += 1;
    assert!(store.get_mut(3).is_none());
    assert_eq!(store.remove(1), Some(10));
    assert_eq!(store.remove(1), None);
    assert_eq!(store.get(2), Some(&21));
    store.clear();
    assert_eq!(store.get(2), None);
}

fn columns() -> Vec<GpuColumn> {
    vec![
        GpuColumn { field: "bare".to_string(), buffer_key: None, token: 40 },
        GpuColumn {
            field: "value".to_string(),
            buffer_key: Some(DIRTY_BUFFER_KEY.to_string()),
            token: 41,
        },
        GpuColumn {
            field: "value".to_string(),
            buffer_key: Some(DIRTY_BUFFER_KEY.to_string()),
            token: 42,
        },
    ]
}

#[test]
fn dirty_gpu_edits_reinsert_and_publish_named_buffer_and_presence() {
    let mut scene = scene();
    let ty = dirty_payload();
    let entity = scene.data.insert_gpu(extension(0), &ty).unwrap();
    assert_eq!(scene.data.gpu_row(entity, Some(6)), Some(6));
    assert_eq!(scene.data.gpu_row(extension(9), Some(6)), None);

    let list = columns();
    assert_eq!(buffer(Some(&list), &DIRTY_BUFFER_KEY.to_string()), Some(41));
    assert_eq!(buffer(Some(&list), &"helio.scene.lights".to_string()), None);
    assert_eq!(buffer(Some(&list), &ONCE_BUFFER_KEY.to_string()), None);
    assert_eq!(field_buffer(Some(&list), &"value".to_string()), Some(41));
    assert_eq!(field_buffer(Some(&list), &"bare".to_string()), Some(40));
    assert_eq!(field_buffer(Some(&list), &"not_a_field".to_string()), None);

    scene.data.edit_gpu(entity, &ty).unwrap();

    let spare = extension(1);
    scene.data.spawn(spare);
    assert!(matches!(
        scene.data.add_cpu(spare, &ty),
        Err(SceneDataError::ComponentPolicyMismatch { .. })
    ));
}

#[test]
fn unregistered_matching_key_cannot_publish_a_builtin_partner() {
    assert_eq!(buffer(None, &"helio.scene.lights".to_string()), None);
    assert_eq!(field_buffer(None, &"value".to_string()), None);
}

#[test]
fn once_components_require_absence_and_readd_starts_a_new_handoff() {
    let mut scene = scene();
    let ty = once_payload();
    let entity = extension(0);
    scene.data.spawn(entity);
    scene.data.add_once(entity, &ty).unwrap();
    assert!(matches!(
        scene.data.add_once(entity, &ty),
        Err(SceneDataError::ComponentAlreadyPresent { .. })
    ));
    scene.data.remove_component(entity, &ty).unwrap();
    scene.data.add_once(entity, &ty).unwrap();
    assert!(scene.data.has(entity, ty.key));
}

#[test]
fn mixed_components_are_lifecycle_only_and_readd_begins_both_lifetimes() {
    let mut scene = scene();
    let ty = mixed_payload();
    let entity = extension(0);
    scene.data.spawn(entity);
    scene.data.add_mixed(entity, &ty).unwrap();
    assert!(matches!(
        scene.data.add_mixed(entity, &ty),
        Err(SceneDataError::ComponentAlreadyPresent { .. })
    ));
    scene.data.remove_component(entity, &ty).unwrap();
    scene.data.add_mixed(entity, &ty).unwrap();
    assert!(matches!(
        scene.data.edit_gpu(entity, &ty),
        Err(SceneDataError::ComponentPolicyMismatch {
            component: "MixedPayload",
            expected: "DirtyTracked",
            actual: "mixed DirtyTracked/Once",
        })
    ));
}

#[test]
fn scene_clear_despawns_application_entities() {
    let mut scene = scene();
    let ty = cpu_payload();
    let entity = scene.data.insert_cpu(extension(0), &ty).unwrap();
    scene.data.insert_subsystem(5, "SubsystemPayload", b"global".to_vec()).unwrap();
    scene.clear(&identity_matrix(), &identity_matrix(), 0);
    assert!(!scene.data.is_alive(entity));
    assert_eq!(scene.data.query(ty.key).len(), 0);
    assert!(scene.data.get_subsystem(5).is_none());
    scene
        .data
        .insert_subsystem(5, "SubsystemPayload", b"new-scene".to_vec())
        .expect("a cleared scene takes new payloads");
}

#[test]
fn unregistered_gpu_columns_are_refused_before_anything_changes() {
    let mut scene = scene();
    let ty = ComponentType { registered: false, ..dirty_payload() };
    assert_eq!(
        scene.data.insert_gpu(extension(0), &ty),
        Err(SceneDataError::GpuColumnsNotRegistered { component: "DirtyPayload" })
    );
    assert!(!scene.data.is_alive(extension(0)));
    // The policy of the type is not settled by the refusal.
    assert!(scene.data.insert_gpu(extension(0), &dirty_payload()).is_ok());
}

#[test]
fn components_of_stale_entities_are_out_of_reach() {
    let mut scene = scene();
    let ty = cpu_payload();
    let entity = scene.data.insert_cpu(extension(3), &ty).unwrap();
    let stale = SceneExtensionEntity(Entity { index: 3, generation: 0 });
    assert_eq!(scene.data.add_cpu(stale, &ty), Err(SceneDataError::InvalidEntity));
    assert_eq!(scene.data.edit_cpu(stale, &ty), Err(SceneDataError::InvalidEntity));
    assert_eq!(scene.data.remove_component(stale, &ty), Err(SceneDataError::InvalidEntity));
    assert!(scene.data.has(entity, ty.key));
    let other = component(9, "Other", vec![]);
    assert_eq!(
        scene.data.edit_cpu(entity, &other),
        Err(SceneDataError::ComponentMissing { component: "Other" })
    );
}

#[test]
fn error_constructors_name_the_type() {
    assert_eq!(
        component_missing("A"),
        SceneDataError::ComponentMissing { component: "A" }
    );
    assert_eq!(
        subsystem_missing("B"),
        SceneDataError::SubsystemMissing { subsystem: "B" }
    );
    let once = ExtensionComponentPolicy::Once;
    let cpu = ExtensionComponentPolicy::CpuOnly;
    assert_eq!(policy_matches("C", once, once), Ok(()));
    assert_eq!(
        policy_matches("C", once, cpu),
        Err(SceneDataError::ComponentPolicyMismatch {
            component: "C",
            expected: "Once",
            actual: "CPU-only",
        })
    );
}

#[test]
fn extension_entity_despawn_retires_its_execution_actor() {
    let mut scene = scene();
    let actor = scene.insert_actor(
        ActorAttachment { sky: None, target: SceneActorId::Nothing, retained: true },
        extension(0),
    );
    let entity = actor.as_custom().expect("targetless actor identity");

    scene.despawn(entity).unwrap();
    assert!(scene.actors.retained.is_empty());
    assert!(!scene.data.is_alive(entity));
    let running = scene.begin_frame();
    assert!(running.is_empty());
    scene.advance_frame(&running);
}
