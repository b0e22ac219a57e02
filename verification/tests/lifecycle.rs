//! Actors, frames, coordinate spaces, voxel volumes, lights and what else a scene owns.
use helio::actors::SceneActorId;
use helio::decals::GpuDecal;
use helio::draws::{MaterialFlagBits, MeshSlice};
use helio::errors::SceneError;
use helio::float_bits::F32;
use helio::flush::FlushReport;
use helio::foliage::Wind;
use helio::frame::SkyContext;
use helio::groups::GroupId;
use helio::handles::{
    Entity, Handle, LightId, MeshId, SceneExtensionEntity, SceneSpriteId, VirtualMeshId,
};
use helio::lifecycle::ActorAttachment;
use helio::lights::GpuLight;
use helio::planet_frames::{
    PlanetFrameAuthorityError, PlanetFrameId, PlanetFrameUniform, PlanetFrameUpdateOutcome,
    PlanetId,
};
use helio::portals::{PortalDescriptor, PortalMeasure};
use helio::presentation::{BillboardInstance, GpuCoronaEmitter};
use helio::rows::{Movability, NewRow};
use helio::scene::Scene;
use helio::scene_actors::{
    LightActor, MeshActor, MeshUpload, PackedVertex, SceneActor, VirtualMeshActor,
    VirtualMeshUpload,
};
use helio::sdf::{SdfAuthorityError, SdfEdit, SdfEditId, TerrainConfig};
use helio::setup::SceneConfig;
use helio::spaces::{identity_matrix, PortalRecord, SpaceField};
use helio::sprites::{SceneSpriteRow, SpriteAtlasError, SpriteAuthorityError};
use helio::sublevels::SublevelDescriptor;
use helio::terrain::VoxelTerrain;
use helio::voxels::{
    brick_count, GpuVoxelMaterial, VoxelAllocation, VoxelMeasure, VoxelMode,
    VoxelVolumeDescriptor,
};

fn f(x: f32) -> F32 {
    F32 { bits: x.to_bits() }
}

/// Entity slots, as the store hands them out.
struct Slots {
    next: u32,
    free: Vec<Entity>,
}

impl Slots {
    fn new() -> Self {
        Slots { next: 0, free: Vec::new() }
    }

    fn take(&mut self) -> Entity {
        match self.free.pop() {
            Some(old) => Entity { index: old.index, generation: old.generation + 1 },
            None => {
                self.next += 1;
                Entity { index: self.next - 1, generation: 1 }
            }
        }
    }
}

/// Rows of one component, as the store hands them out.
struct Rows {
    next: u32,
    free: Vec<u32>,
}

impl Rows {
    fn new() -> Self {
        Rows { next: 0, free: Vec::new() }
    }

    fn take(&mut self, slots: &mut Slots) -> NewRow {
        let gpu_row = self.free.pop().unwrap_or_else(|| {
            self.next += 1;
            self.next - 1
        });
        NewRow { entity: slots.take(), gpu_row }
    }

    fn give(&mut self, slots: &mut Slots, gone: NewRow) {
        slots.free.push(gone.entity);
        self.free.push(gone.gpu_row);
    }
}

fn scene() -> Scene {
    Scene::new(SceneConfig {
        space_field: SpaceField { shift: 8, capacity: 32 },
        flag_bits: MaterialFlagBits { forward_shading: 1, transparent_only: 2, alpha_test: 4 },
        voxel_allocated_flag: 1,
        corona_capacity: 8,
        sprite_limits: (256, 4096),
        wind: Wind {
            direction: [f(1.0), f(0.0), f(0.0)],
            speed: f(1.0),
            gusts: [f(0.0); 4],
            time: f(0.0),
            prev_time: f(0.0),
        },
    })
}

fn flush(scene: &mut Scene) -> FlushReport {
    let measured = vec![f(1.0); scene.realtime_light_count()];
    scene.flush(&measured, &identity_matrix(), &identity_matrix(), 0)
}

fn clear(scene: &mut Scene) -> FlushReport {
    scene.clear(&identity_matrix(), &identity_matrix(), 0)
}

fn translation(x: f32, y: f32, z: f32) -> [F32; 16] {
    let mut matrix = identity_matrix();
    matrix[12] = f(x);
    matrix[13] = f(y);
    matrix[14] = f(z);
    matrix
}

fn identity_of(slots: &mut Slots) -> SceneExtensionEntity {
    SceneExtensionEntity(slots.take())
}

fn sky(r: f32, g: f32, b: f32) -> SkyContext {
    SkyContext { has_sky: true, sky_color: [f(r), f(g), f(b)], body: [0; 24] }
}

fn behaviour(sky: Option<SkyContext>) -> ActorAttachment {
    ActorAttachment { sky, target: SceneActorId::Nothing, retained: true }
}

/// One frame in which every actor writes its identity down.
fn tick(scene: &mut Scene, log: &mut Vec<SceneActorId>) {
    let running = scene.begin_frame();
    for &id in &running {
        if scene.actor_runs(id) {
            log.push(id);
        }
    }
    scene.advance_frame(&running);
}

fn lamp() -> GpuLight {
    GpuLight {
        position_range: [f(0.0), f(0.0), f(0.0), f(10.0)],
        direction_outer: [f(0.0), f(-1.0), f(0.0), f(0.5)],
        color_intensity: [f(1.0), f(1.0), f(1.0), f(1.0)],
        inner_angle: f(0.25),
        light_type: 1,
        shadow_index: u32::MAX,
        shading: [0; 8],
    }
}

#[test]
fn test_sky_actor_detection_default() {
    let scene = scene();
    let sky_ctx = scene.sky_context();
    assert!(!sky_ctx.has_sky, "Default scene should have no sky");
    assert_eq!(sky_ctx.body, [0; 24], "Default scene should have no clouds");
}

#[test]
fn test_sky_actor_detection_with_clouds() {
    let mut scene = scene();
    let mut slots = Slots::new();
    let mut with_clouds = sky(0.5, 0.7, 1.0);
    with_clouds.body[0] = 0.6f32.to_bits();
    with_clouds.body[1] = 0.8f32.to_bits();
    let actor = SceneActor::sky(with_clouds);
    scene.insert_actor(actor.attachment(), identity_of(&mut slots));

    assert!(
        scene.actors.retained.is_empty(),
        "the built-in sky is snapshotted, not retained as an actor"
    );
    let sky_ctx = scene.sky_context();
    assert!(sky_ctx.has_sky, "Sky actor should be detected");
    assert_eq!(sky_ctx.body[0], 0.6f32.to_bits(), "Coverage should match");
    assert_eq!(sky_ctx.body[1], 0.8f32.to_bits(), "Density should match");
}

#[test]
fn test_multiple_sky_actors_first_wins() {
    let mut scene = scene();
    let mut slots = Slots::new();
    for color in [sky(1.0, 0.0, 0.0), sky(0.0, 1.0, 0.0)] {
        let actor = SceneActor::sky(color);
        scene.insert_actor(actor.attachment(), identity_of(&mut slots));
    }
    assert_eq!(
        scene.sky_context().sky_color[0],
        f(1.0),
        "Should use first actor's color"
    );
    assert!(!scene.claim_sky_context(sky(0.0, 0.0, 1.0)));
}

#[test]
fn dynamic_sky_changes_require_explicit_canonical_mutation() {
    let mut scene = scene();
    let mut slots = Slots::new();
    let initial = sky(1.0, 0.0, 0.0);
    let next = sky(0.0, 1.0, 0.0);

    scene.insert_actor(behaviour(Some(initial)), identity_of(&mut slots));
    tick(&mut scene, &mut Vec::new());
    assert_eq!(scene.sky_context().sky_color, initial.sky_color);
    assert!(scene.update_sky_context(next));
    assert_eq!(scene.sky_context().sky_color, next.sky_color);

    clear(&mut scene);
    assert!(!scene.sky_context().has_sky);
    assert!(!scene.update_sky_context(next));
}

#[test]
fn actor_tick_is_ordered_and_insertions_start_next_frame() {
    let mut scene = scene();
    let mut slots = Slots::new();
    let mut log = Vec::new();
    let first = scene.insert_actor(behaviour(None), identity_of(&mut slots));
    assert!(matches!(first, SceneActorId::Custom(_)));
    let first_entity = first.as_custom().expect("targetless actor extension identity");
    assert!(scene.data.is_alive(first_entity));

    let running = scene.begin_frame();
    let mut child = None;
    for &id in &running {
        log.push(id);
        child = Some(scene.insert_actor(behaviour(None), identity_of(&mut slots)));
    }
    scene.advance_frame(&running);
    let child = child.unwrap();
    assert_eq!(log, vec![first]);
    tick(&mut scene, &mut log);
    assert_eq!(log, vec![first, first, child]);

    scene.remove_actor(first).unwrap();
    assert!(!scene.data.is_alive(first_entity));
    tick(&mut scene, &mut log);
    assert_eq!(
        log,
        vec![first, first, child, child],
        "the surviving child keeps stable insertion order"
    );
    assert_eq!(
        scene.remove_actor(first),
        Err(SceneError::InvalidHandle { resource: "actor" })
    );
}

#[test]
fn an_actor_removed_in_its_own_frame_stays_away() {
    let mut scene = scene();
    let mut slots = Slots::new();
    let first = scene.insert_actor(behaviour(None), identity_of(&mut slots));
    let second = scene.insert_actor(behaviour(None), identity_of(&mut slots));
    let running = scene.begin_frame();
    assert_eq!(running, vec![first, second]);
    scene.remove_actor(second).unwrap();
    assert!(!scene.actor_runs(second));
    scene.advance_frame(&running);
    assert_eq!(scene.actors.retained, vec![first]);
    assert_eq!(scene.frame.frame_count, 1);
}

#[test]
fn direct_target_removal_retires_its_execution_actor() {
    let mut scene = scene();
    let mut slots = Slots::new();
    let mut lights = Rows::new();
    let light = scene.insert_light(lights.take(&mut slots), lamp());
    let actor = scene.insert_actor(
        ActorAttachment { sky: None, target: SceneActorId::Light(light), retained: true },
        identity_of(&mut slots),
    );
    assert_eq!(actor.as_light(), Some(light));
    assert_eq!(scene.actors.retained.len(), 1);

    scene.remove_light(light).unwrap();
    assert!(scene.actors.retained.is_empty());
    let mut log = Vec::new();
    tick(&mut scene, &mut log);
    assert!(log.is_empty());

    let mut light_actor = LightActor::new(lamp());
    assert_eq!(light_actor.inserted_id(), SceneActorId::Nothing);
    light_actor.on_attach(&mut scene, lights.take(&mut slots));
    let descriptor_only =
        scene.insert_actor(SceneActor::Light(light_actor).attachment(), identity_of(&mut slots));
    assert!(scene.actors.retained.is_empty());
    scene.remove_actor(descriptor_only).unwrap();
    assert!(scene.remove_actor(descriptor_only).is_err());
}

#[test]
fn presentation_lists_are_scenedb_owned_and_generation_tracked() {
    let mut scene = scene();
    assert_eq!(scene.presentation_generations(), (0, 0));

    let billboard = BillboardInstance {
        world_pos: [f(1.0), f(2.0), f(3.0), f(0.0)],
        scale_flags: [f(0.5), f(0.5), f(0.0), f(0.0)],
        color: [f(1.0), f(0.5), f(0.25), f(1.0)],
    };
    scene.set_billboard_instances(vec![billboard]);
    let billboard_generation = scene.presentation_generations().0;
    assert_eq!(scene.authored_billboards().len(), 1);
    scene.set_billboard_instances(vec![billboard]);
    assert_eq!(scene.presentation_generations().0, billboard_generation);

    let emitters = |count: usize| {
        (0..count).map(|_| GpuCoronaEmitter { words: vec![0; 16] }).collect::<Vec<_>>()
    };
    scene.set_corona_emitters(emitters(1)).unwrap();
    let corona_generation = scene.presentation_generations().1;
    assert_eq!(scene.corona_emitters().len(), 1);
    scene.set_corona_emitters(emitters(1)).unwrap();
    assert_eq!(scene.presentation_generations().1, corona_generation);

    assert_eq!(
        scene.set_corona_emitters(emitters(9)),
        Err(SceneError::CoronaEmitterCapacityExceeded { requested: 9, capacity: 8 })
    );
    assert_eq!(scene.corona_emitters().len(), 1);
    assert_eq!(scene.presentation_generations().1, corona_generation);

    clear(&mut scene);
    assert!(scene.authored_billboards().is_empty());
    assert!(scene.corona_emitters().is_empty());
    assert!(scene.presentation_generations().0 > billboard_generation);
    assert!(scene.presentation_generations().1 > corona_generation);
}

#[test]
fn corona_clear_readd_without_render_advances_simulation_lifetime() {
    let mut scene = scene();
    scene.set_corona_emitters(vec![GpuCoronaEmitter { words: vec![0; 16] }]).unwrap();
    let before_clear = scene.corona_reset_epoch();

    clear(&mut scene);
    scene.set_corona_emitters(vec![GpuCoronaEmitter { words: vec![0; 16] }]).unwrap();

    assert_eq!(scene.corona_emitters().len(), 1);
    assert_ne!(
        scene.corona_reset_epoch(),
        before_clear,
        "a clear boundary must be seen even when the pass never observes the empty list"
    );
}

fn triangle() -> (Vec<PackedVertex>, Vec<u32>) {
    (vec![PackedVertex { words: [0; 8] }; 3], vec![0, 1, 2])
}

#[test]
fn virtual_mesh_actor_consumes_the_upload_on_attach() {
    let mut scene = scene();
    let mut slots = Slots::new();
    let (vertices, indices) = triangle();
    let mut actor = VirtualMeshActor::new(VirtualMeshUpload { vertices, indices });
    let slice = MeshSlice { first_vertex: 0, vertex_count: 3, first_index: 0, index_count: 3 };
    let lod = scene.insert_mesh(slots.take(), slice);
    actor.on_attach(&mut scene, slots.take(), Some(lod), 1);
    assert!(actor.upload.is_none());
    let id = actor.id().expect("virtual mesh handoff id");
    assert_eq!(actor.inserted_id(), SceneActorId::VirtualMesh(id));
    let next = slots.take();
    actor.on_attach(&mut scene, next, Some(lod), 1);
    assert_eq!(actor.id(), Some(id));
    assert!(!scene.virtual_geometry.meshes.is_live(VirtualMeshId(next)));
    scene.remove_virtual_mesh(id).unwrap();
}

#[test]
fn mesh_actor_hands_its_geometry_over_once() {
    let mut scene = scene();
    let mut slots = Slots::new();
    let (vertices, indices) = triangle();
    let mut actor = MeshActor::new(MeshUpload { vertices, indices });
    assert!(actor.id().is_none());
    assert_eq!(actor.upload.as_ref().unwrap().indices, vec![0, 1, 2]);
    let slice = MeshSlice { first_vertex: 0, vertex_count: 3, first_index: 0, index_count: 3 };
    actor.on_attach(&mut scene, slots.take(), slice);
    assert!(actor.upload.is_none());
    let id = actor.id().unwrap();
    assert_eq!(scene.meshes.get(id).unwrap().slice, slice);
    let next = slots.take();
    actor.on_attach(&mut scene, next, slice);
    assert_eq!(actor.id(), Some(id));
    assert!(!scene.meshes.is_live(MeshId(next)));

    // Without anything to upload there is nothing to insert.
    let mut hollow = MeshActor { upload: None, mesh_id: None };
    hollow.on_attach(&mut scene, next, slice);
    assert_eq!(hollow.id(), None);
    assert!(!scene.meshes.is_live(MeshId(next)));
    assert_eq!(scene.remove_actor(actor.inserted_id()), Ok(()));
    assert!(scene.meshes.get(id).is_none());
}

#[test]
fn repeated_flush_does_not_advance_coordinate_history() {
    let mut scene = scene();
    let mut slots = Slots::new();
    let initial = translation(1.0, 2.0, 3.0);
    let edited = translation(9.0, 8.0, 7.0);
    let new = NewRow { entity: slots.take(), gpu_row: 1 };
    let sublevel = scene
        .add_sublevel(new, SublevelDescriptor { group: GroupId(0), placement: initial })
        .unwrap();
    flush(&mut scene);
    tick(&mut scene, &mut Vec::new());

    scene.update_sublevel(sublevel, edited).unwrap();
    flush(&mut scene);
    flush(&mut scene);
    assert_eq!(
        scene.spaces.history.previous[1], initial,
        "upload-only flushes must not collapse temporal velocity"
    );
    assert_eq!(scene.spaces.history.current[1], edited);

    tick(&mut scene, &mut Vec::new());
    assert_eq!(scene.spaces.history.previous[1], edited);
}

/// Where each portal's near opening stands before each far one.
fn locals(portals: &[([f32; 3], [f32; 3])]) -> Vec<Vec<[F32; 3]>> {
    portals
        .iter()
        .map(|(_, b)| {
            portals
                .iter()
                .map(|(a, _)| [0, 1, 2].map(|i| f(a[i] - b[i])))
                .collect()
        })
        .collect()
}

fn portal(
    a: [f32; 3],
    b: [f32; 3],
    half_extent: f32,
) -> (PortalDescriptor, PortalMeasure) {
    let a = translation(a[0], a[1], a[2]);
    let b = translation(b[0], b[1], b[2]);
    (
        PortalDescriptor { a, b, half_extent: [f(half_extent); 2] },
        PortalMeasure { a_inverse: a, pair_map_inverse: b },
    )
}

/// Rows of the coordinate table in use: the world, the sublevels and the portals.
fn coordinate_rows(scene: &Scene) -> usize {
    1 + scene.spaces.sublevels.len() + scene.spaces.portals.len()
}

#[test]
fn coordinate_space_entities_publish_and_reuse_rows_without_stale_history() {
    let mut scene = scene();
    let mut slots = Slots::new();
    let mut rows = Rows { next: 1, free: Vec::new() };
    assert_eq!(coordinate_rows(&scene), 1);
    let first_placement = translation(4.0, 5.0, 6.0);
    let sublevel_new = rows.take(&mut slots);
    let sublevel = scene
        .add_sublevel(
            sublevel_new,
            SublevelDescriptor { group: GroupId(0), placement: first_placement },
        )
        .expect("first sublevel");
    assert_eq!(sublevel_new.gpu_row, 1);
    assert_eq!(scene.sublevel_placement(sublevel), Some(first_placement));

    let near = ([0.0; 3], [0.0, 0.0, 8.0]);
    let (desc, measure) = portal(near.0, near.1, 2.0);
    let portal_new = rows.take(&mut slots);
    let first_portal = scene
        .add_portal(portal_new, desc, measure, locals(&[near]))
        .expect("first portal");
    assert_eq!(portal_new.gpu_row, 2);
    assert_eq!(scene.portal_pair(first_portal), Some((desc.a, desc.b)));

    let far = ([100.0, 0.0, 0.0], [100.0, 0.0, 8.0]);
    let (desc, measure) = portal(far.0, far.1, 2.0);
    let moving_portal = scene
        .add_portal(rows.take(&mut slots), desc, measure, locals(&[near, far]))
        .expect("second portal");
    let unrelated_chain_count = scene.spaces.portal_chains.len();
    assert_eq!(unrelated_chain_count, 2);
    let beyond = ([0.0, 0.0, 8.0], [0.0, 0.0, 16.0]);
    let (desc, measure) = portal(beyond.0, beyond.1, 2.0);
    scene
        .update_portal_pose(moving_portal, desc.a, desc.b, measure, locals(&[near, beyond]))
        .expect("pose-dependent chain rebuild");
    assert!(
        scene.spaces.portal_chains.len() > unrelated_chain_count,
        "moving a portal into another's far opening must republish reachable chains"
    );

    flush(&mut scene);
    assert_eq!(coordinate_rows(&scene), 4);
    scene.remove_sublevel(sublevel).unwrap();
    rows.give(&mut slots, sublevel_new);
    assert!(scene.sublevel_placement(sublevel).is_none());
    let replacement_placement = translation(-3.0, 2.0, 11.0);
    let replacement_new = rows.take(&mut slots);
    let replacement = scene
        .add_sublevel(
            replacement_new,
            SublevelDescriptor { group: GroupId(1), placement: replacement_placement },
        )
        .expect("replacement sublevel");
    assert_eq!(replacement_new.gpu_row, sublevel_new.gpu_row);
    assert_eq!(
        scene.spaces.history.current[replacement_new.gpu_row as usize],
        replacement_placement,
        "a new row lifetime must not retain the prior owner's history"
    );
    assert_eq!(
        scene.spaces.history.previous[replacement_new.gpu_row as usize],
        replacement_placement
    );

    clear(&mut scene);
    assert!(scene.portal_pair(first_portal).is_none());
    assert!(scene.sublevel_placement(replacement).is_none());
    assert_eq!(coordinate_rows(&scene), 1);
    assert!(scene.spaces.portal_views.is_empty());
    assert!(scene.spaces.history.current.iter().all(|m| *m == identity_matrix()));
}

#[test]
fn sublevels_and_portals_share_the_shader_coordinate_capacity() {
    let mut scene = scene();
    let mut slots = Slots::new();
    let mut rows = Rows { next: 1, free: Vec::new() };
    let mut sublevels = Vec::new();
    for index in 0..30u8 {
        let placement = translation(index as f32, 0.0, 0.0);
        sublevels.push(
            scene
                .add_sublevel(
                    rows.take(&mut slots),
                    SublevelDescriptor { group: GroupId(index), placement },
                )
                .expect("coordinate row below the shared cap"),
        );
    }
    let pair = ([0.0; 3], [0.0, 0.0, 4.0]);
    let (desc, measure) = portal(pair.0, pair.1, 1.0);
    let portal_new = rows.take(&mut slots);
    let last = scene
        .add_portal(portal_new, desc, measure, locals(&[pair]))
        .expect("last shared coordinate row");
    assert_eq!(coordinate_rows(&scene), 32);
    assert!(!scene.spaces.has_room());
    let more = SublevelDescriptor { group: GroupId(7), placement: identity_matrix() };
    assert!(matches!(
        scene.add_sublevel(NewRow { entity: slots.take(), gpu_row: 0 }, more),
        Err(SceneError::CoordinateSpaceCapacityExceeded)
    ));
    assert!(matches!(
        scene.add_portal(
            NewRow { entity: slots.take(), gpu_row: 0 },
            desc,
            measure,
            locals(&[pair, pair])
        ),
        Err(SceneError::CoordinateSpaceCapacityExceeded)
    ));

    scene.remove_portal(last).unwrap();
    rows.give(&mut slots, portal_new);
    let recovered = scene
        .add_sublevel(rows.take(&mut slots), more)
        .expect("removal returns one shared row");
    assert!(scene.sublevel_placement(recovered).is_some());
    assert_eq!(coordinate_rows(&scene), 32);
    assert!(!scene.spaces.has_room());

    for sublevel in sublevels {
        scene.remove_sublevel(sublevel).unwrap();
    }
    scene.remove_sublevel(recovered).unwrap();
    assert_eq!(coordinate_rows(&scene), 1);
    assert!(scene.spaces.has_room());
    assert_eq!(
        scene.remove_sublevel(recovered),
        Err(SceneError::InvalidHandle { resource: "sublevel" })
    );
}

#[test]
fn portal_edits_are_refused_when_the_chains_overflow() {
    let mut scene = scene();
    let mut slots = Slots::new();
    let mut rows = Rows { next: 1, free: Vec::new() };
    let pair = ([0.0; 3], [0.0; 3]);
    let (desc, measure) = portal(pair.0, pair.1, 2.0);
    let mut ids = Vec::new();
    for count in 1..=6usize {
        ids.push(
            scene
                .add_portal(rows.take(&mut slots), desc, measure, locals(&vec![pair; count]))
                .unwrap(),
        );
    }
    assert_eq!(scene.spaces.portal_chains.len(), 258);
    assert!(matches!(
        scene.add_portal(rows.take(&mut slots), desc, measure, locals(&[pair; 7])),
        Err(SceneError::PortalChainCapacityExceeded)
    ));
    assert_eq!(scene.spaces.portal_chains.len(), 258);
    assert_eq!(scene.portal_half_extent(ids[0]), Some([f(2.0); 2]));
    scene.update_portal_half_extent(ids[0], [f(3.0), f(1.0)]).unwrap();
    assert_eq!(scene.portal_half_extent(ids[0]), Some([f(3.0), f(1.0)]));
    scene.remove_portal(ids[5]).unwrap();
    assert_eq!(scene.spaces.portal_views.len(), 5);
    assert_eq!(scene.spaces.portal_chains.len(), 5 + 25 + 125);
    assert_eq!(
        scene.remove_portal(ids[5]),
        Err(SceneError::InvalidHandle { resource: "portal" })
    );
    assert_eq!(scene.portal_pair(ids[5]), None);
}

fn volume(mode: VoxelMode, x: f32) -> (VoxelVolumeDescriptor, VoxelMeasure) {
    (
        VoxelVolumeDescriptor {
            voxel_size: f(0.5),
            root_extent: f(32.0),
            local_to_world: translation(x, 0.0, 0.0),
            movability: Some(Movability::Stationary),
            mode: Some(mode),
            material_palette: vec![GpuVoxelMaterial { words: vec![0; 4] }],
        },
        VoxelMeasure { dimension: 64, world_to_local: translation(-x, 0.0, 0.0) },
    )
}

fn bricks(brick_base: u32) -> Option<VoxelAllocation> {
    Some(VoxelAllocation { brick_base, palette_base: 0, palette_count: 1 })
}

#[test]
fn voxel_volume_rows_are_scenedb_owned_and_projection_dense() {
    let mut scene = scene();
    let mut slots = Slots::new();
    let mut rows = Rows::new();
    let first_new = rows.take(&mut slots);
    let (desc, measure) = volume(VoxelMode::Dynamic, 1.0);
    let first = scene.insert_voxel_volume(first_new, desc, measure, bricks(0)).unwrap();
    let second_new = rows.take(&mut slots);
    let (desc, measure) = volume(VoxelMode::Dynamic, 2.0);
    let second = scene.insert_voxel_volume(second_new, desc, measure, bricks(512)).unwrap();
    assert_eq!((first_new.gpu_row, second_new.gpu_row), (0, 1));
    assert_eq!(scene.voxels.raymarched.rows(), &[0, 1]);
    let second_row = scene.voxels.volumes.get(second).unwrap().row;
    assert_eq!(second_row.dimensions, [64; 3]);
    assert_eq!(second_row.brick_grid_dim, 8);
    assert_eq!(second_row.brick_offset, 512);
    assert_eq!(scene.voxels.volumes.get(first).unwrap().row.brick_offset, 0);

    scene.remove_voxel_volume(first).unwrap();
    rows.give(&mut slots, first_new);
    assert_eq!(scene.voxels.raymarched.rows(), &[second_new.gpu_row]);
    assert!(scene.remove_voxel_volume(first).is_err());

    // Stable component rows do not relocate survivors; the freed row is reused.
    let third_new = rows.take(&mut slots);
    let (desc, measure) = volume(VoxelMode::Dynamic, 3.0);
    let third = scene.insert_voxel_volume(third_new, desc, measure, bricks(0)).unwrap();
    assert_eq!(third_new.gpu_row, first_new.gpu_row);
    assert_eq!(
        scene.voxels.raymarched.rows(),
        &[second_new.gpu_row, first_new.gpu_row]
    );
    assert_eq!(scene.voxels.volumes.get(third).unwrap().row.brick_offset, 0);

    let place = scene.voxels.volumes.slot(third).unwrap();
    scene.voxels.volumes.value_by_slot[place].record.edit_cooldown = 9;
    let work_generation = scene.voxels.mesh_work_generation;
    scene.edit_voxel_volume(third).unwrap();
    assert_eq!(scene.voxel_volume(third).unwrap().edit_cooldown, 0);
    assert_eq!(scene.voxels.mesh_work_generation, work_generation);

    // Mesh volumes are absent from the compact raymarch projection.
    let auto_new = rows.take(&mut slots);
    let (desc, measure) = volume(VoxelMode::Auto, 4.0);
    let auto = scene.insert_voxel_volume(auto_new, desc, measure, bricks(1024)).unwrap();
    let palette = (0..3).map(|_| GpuVoxelMaterial { words: vec![0; 4] }).collect();
    scene.update_voxel_material_palette(auto, palette, Some((20, 3))).unwrap();
    let auto_row = scene.voxels.volumes.get(auto).unwrap().row;
    assert_ne!(auto_row.brick_offset, u32::MAX);
    assert_eq!(auto_row.palette_count, 3);
    assert_eq!(auto_row.palette_offset, 20);
    assert_eq!(scene.voxel_volume(auto).unwrap().material_palette.len(), 3);
    assert_eq!(
        scene.voxels.raymarched.rows(),
        &[second_new.gpu_row, first_new.gpu_row]
    );
    let terrain = VoxelTerrain::empty();
    scene.upload_voxel_terrain(auto, &terrain, true).unwrap();
    let work = scene.voxels.meshes.row(0).unwrap();
    assert_eq!(work.volume_row, auto_new.gpu_row);
    assert_eq!(work.flags, 1);
    let work_generation = scene.voxels.mesh_work_generation;
    flush(&mut scene);
    assert!(scene.voxels.mesh_work_generation > work_generation);
    assert_eq!(scene.voxels.mesh_work.len(), 512);
    scene.remove_voxel_volume(auto).unwrap();

    flush(&mut scene);
    assert_eq!(scene.voxels.volumes.len(), 2);
    clear(&mut scene);
    assert_eq!(scene.voxels.volumes.len(), 0);
    assert!(scene.voxels.raymarched.rows().is_empty());
}

#[test]
fn auto_voxel_output_ceiling_is_checked_and_reuse_overwrites_stale_work() {
    let mut scene = scene();
    let mut slots = Slots::new();
    let mut rows = Rows::new();
    let mut insert = |scene: &mut Scene, base: u32| {
        let (desc, measure) = volume(VoxelMode::Auto, 0.0);
        let new = rows.take(&mut slots);
        (scene.insert_voxel_volume(new, desc, measure, bricks(base)), new)
    };
    let first = insert(&mut scene, 0).0.unwrap();
    let second = insert(&mut scene, 512).0.unwrap();
    assert!(matches!(
        insert(&mut scene, 1024).0,
        Err(SceneError::VoxelMeshCapacityExceeded)
    ));
    assert_eq!(scene.voxels.meshes.row(0).unwrap().local_brick, 0);
    assert_eq!(scene.voxels.meshes.row(512).unwrap().local_brick, 0);

    scene.remove_voxel_volume(first).unwrap();
    let (replacement, new) = insert(&mut scene, 0);
    let replacement = replacement.unwrap();
    assert_eq!(
        scene.voxels.meshes.row(0).unwrap().volume_row,
        new.gpu_row,
        "same-batch reuse must replace the removed generation's clear row"
    );

    scene.upload_voxel_terrain(replacement, &VoxelTerrain::empty(), true).unwrap();
    flush(&mut scene);
    assert_eq!(scene.voxels.mesh_work.len(), 1024);
    assert_eq!(scene.voxels.mesh_draw_count, 0);
    scene.remove_voxel_volume(second).unwrap();
    scene.remove_voxel_volume(replacement).unwrap();
}

#[test]
fn voxel_volumes_report_each_refusal() {
    let mut scene = scene();
    let mut slots = Slots::new();
    let new = Rows::new().take(&mut slots);
    let (mut desc, measure) = volume(VoxelMode::Dynamic, 0.0);
    desc.voxel_size = f(0.0);
    assert!(matches!(
        scene.insert_voxel_volume(new, desc, measure, bricks(0)),
        Err(SceneError::InvalidOperation { reason: "voxel volume size must be finite and positive" })
    ));
    let (desc, mut measure) = volume(VoxelMode::Dynamic, 0.0);
    measure.dimension = u32::MAX;
    assert!(matches!(
        scene.insert_voxel_volume(new, desc, measure, bricks(0)),
        Err(SceneError::InvalidOperation {
            reason: "voxel volume brick dimensions exceed the u32 address domain"
        })
    ));
    let (desc, measure) = volume(VoxelMode::Dynamic, 0.0);
    assert!(matches!(
        scene.insert_voxel_volume(new, desc, measure, None),
        Err(SceneError::InvalidOperation { .. })
    ));
    let (desc, measure) = volume(VoxelMode::Dynamic, 0.0);
    let id = scene.insert_voxel_volume(new, desc, measure, bricks(0)).unwrap();
    let terrain = VoxelTerrain::empty();
    assert!(scene.upload_voxel_terrain(id, &terrain, false).is_err());
    assert!(scene.update_voxel_material_palette(id, vec![], None).is_err());
    assert_eq!(brick_count(64), Some(512));
    assert_eq!(brick_count(65), Some(729));
    assert_eq!(brick_count(1), Some(1));
    assert_eq!(brick_count(u32::MAX), None);
}

#[test]
fn scenedb_light_and_decal_crud_keeps_compact_gpu_counts_and_tags() {
    let mut scene = scene();
    let mut slots = Slots::new();
    let mut lights = Rows::new();
    let mut decals = Rows::new();
    let decal = GpuDecal { words: [0; 32] };

    let movable = scene.insert_light_with_movability(
        lights.take(&mut slots),
        GpuLight {
            color_intensity: [f(1.0), f(0.5), f(0.25), f(8.0)],
            // Assigned atlas slices are derived. Any other input is normalized to the
            // authored request.
            shadow_index: 37,
            ..lamp()
        },
        Some(Movability::Movable),
        101,
    );
    let static_light = scene.insert_light_with_movability(
        lights.take(&mut slots),
        lamp(),
        Some(Movability::Static),
        202,
    );
    let first_decal = scene.insert_decal_with_tag(
        decals.take(&mut slots),
        decal,
        303,
        Some(Movability::Movable),
    );
    let second_decal =
        scene.insert_decal_with_tag(decals.take(&mut slots), decal, 404, None);

    assert_eq!(scene.light_by_tag(101), Some(movable));
    assert_eq!(scene.light_by_tag(202), Some(static_light));
    assert_eq!(scene.decal_by_tag(303), Some(first_decal));
    assert_eq!(scene.decal_by_tag(404), Some(second_decal));
    assert_eq!(scene.iter_lights().len(), 2);
    assert_eq!(scene.decal_count(), 2);

    let queried = scene
        .iter_lights()
        .into_iter()
        .find(|(id, _, _)| *id == movable)
        .expect("movable light must be visible to the query");
    assert_eq!(queried.2, 101);
    let gotten = scene.get_light(movable).expect("movable light must be gettable");
    assert_eq!(queried.1.shadow_index, 0);
    assert_eq!(gotten.shadow_index, 0);
    assert_eq!(queried.1.color_intensity, gotten.color_intensity);

    let mut updated = gotten;
    updated.color_intensity[3] = f(12.0);
    scene.update_light(movable, updated).unwrap();
    assert_eq!(scene.get_light(movable).unwrap().color_intensity[3], f(12.0));

    let report = flush(&mut scene);
    assert_eq!(report.lights, 1, "static authored rows are not realtime slots");
    assert_eq!(report.decals, 2, "decal count follows the active projection");
    assert_eq!(scene.lights.slots, vec![[0, 0]]);

    assert!(scene.remove_decal(first_decal));
    scene.remove_light(movable).unwrap();
    let report = flush(&mut scene);
    assert_eq!(report.lights, 0);
    assert_eq!(report.decals, 1);
    assert_eq!(scene.lights.active_shadow_face_count, 0);
    assert_eq!(scene.light_by_tag(101), None);
    assert_eq!(scene.decal_by_tag(303), None);
    assert!(scene.get_light(movable).is_none());
    assert!(scene.get_decal(first_decal).is_none());
    assert!(!scene.update_decal(first_decal, decal));
    assert!(!scene.remove_decal(first_decal));

    let report = clear(&mut scene);
    assert_eq!(scene.iter_lights().len(), 0);
    assert_eq!(scene.decal_count(), 0);
    assert_eq!(scene.light_by_tag(202), None);
    assert_eq!(scene.decal_by_tag(404), None);
    assert_eq!(report.lights, 0);
    assert_eq!(report.decals, 0);
    assert_eq!(scene.lights.active_shadow_face_count, 0);

    // Re-entry may reuse the same rows, but generations and compact projections must
    // describe only the new entities after clear.
    let reentered_light = scene.insert_light_with_movability(
        lights.take(&mut slots),
        lamp(),
        Some(Movability::Movable),
        505,
    );
    let reentered_decal = scene.insert_decal_with_tag(
        decals.take(&mut slots),
        decal,
        606,
        Some(Movability::Movable),
    );
    let report = flush(&mut scene);
    assert_eq!(scene.light_by_tag(505), Some(reentered_light));
    assert_eq!(scene.decal_by_tag(606), Some(reentered_decal));
    assert!(scene.get_light(static_light).is_none());
    assert!(scene.get_decal(second_decal).is_none());
    assert_eq!(report.lights, 1);
    assert_eq!(report.decals, 1);
    assert_eq!(scene.lights.active_shadow_face_count, 0);
}

#[test]
fn shadow_budget_prefers_the_brighter_lights() {
    let mut scene = scene();
    let mut slots = Slots::new();
    let mut rows = Rows::new();
    scene.set_shadow_face_capacity(12);
    let mut wanted = lamp();
    wanted.shadow_index = 0;
    for _ in 0..3 {
        scene.insert_light_with_movability(
            rows.take(&mut slots),
            wanted,
            Some(Movability::Movable),
            0,
        );
    }
    let view = identity_matrix();
    scene.flush(&[f(1.0), f(3.0), f(2.0)], &view, &view, 0);
    let bases = scene.lights.slots.iter().map(|s| s[1]).collect::<Vec<_>>();
    assert_eq!(bases, vec![u32::MAX, 0, 6]);
    assert_eq!(scene.realtime_lights().len(), 3);
    let gone = LightId::from_raw(70, 1);
    assert_eq!(
        scene.update_light(gone, wanted),
        Err(SceneError::InvalidHandle { resource: "light" })
    );
    assert_eq!(
        scene.remove_light(gone),
        Err(SceneError::InvalidHandle { resource: "light" })
    );
}

#[test]
fn planetary_frames_publish_from_scenedb_and_clear_invalidates_stable_ids() {
    let mut scene = scene();
    let frame = |byte: u64, number: u32| PlanetFrameUniform {
        planet: PlanetId(byte),
        body: [number; 32],
    };
    let id = |index, generation| PlanetFrameId(Entity { index, generation });
    let inserted = PlanetFrameUpdateOutcome::Inserted;
    let (first, _) = scene.set_planet_frame(frame(1, 1), Ok((id(0, 1), inserted))).unwrap();
    let (second, _) = scene.set_planet_frame(frame(2, 1), Ok((id(1, 1), inserted))).unwrap();
    scene
        .update_planet_frame(first, frame(1, 2), Ok(PlanetFrameUpdateOutcome::Updated))
        .unwrap();
    flush(&mut scene);
    assert_eq!(scene.planet_frames().len(), 2);
    assert_eq!(scene.planet_frame(first).unwrap().body, [2; 32]);
    assert_eq!(scene.planet_frame_id(PlanetId(2)), Some(second));
    assert_eq!(scene.planet_frame_for(PlanetId(2)).unwrap().body, [1; 32]);

    scene.remove_planet_frame(second, Ok(())).unwrap();
    let replacement = scene.insert_planet_frame(frame(3, 1), Ok(id(1, 2))).unwrap();
    assert_eq!(replacement.0.index, second.0.index);
    assert_ne!(replacement.0.generation, second.0.generation);
    assert!(scene
        .insert_planet_frame(
            frame(3, 1),
            Err(PlanetFrameAuthorityError::DuplicatePlanet(PlanetId(3)))
        )
        .is_err());
    clear(&mut scene);
    assert!(scene.planet_frames().is_empty());
    assert!(scene.planet_frame(first).is_none());
    assert!(scene.planet_frame(replacement).is_none());
}

#[test]
fn clear_resets_canonical_sdf_edits_terrain_and_publication() {
    let mut scene = scene();
    let sphere = SdfEdit {
        shape: 0,
        operation: 0,
        transform: translation(2.0, 3.0, 4.0),
        params: [f(2.0), f(0.0), f(0.0), f(0.0)],
        blend: f(0.0),
    };
    let id = |index| SdfEditId(Entity { index, generation: 1 });
    let edit = scene.add_sdf_edit(sphere, Ok(id(0))).expect("valid SDF edit");
    scene
        .set_sdf_terrain(Some(TerrainConfig { words: [1; 16] }), Ok(()))
        .expect("valid terrain");
    flush(&mut scene);
    assert_eq!(scene.sdf_edits().len(), 1);
    assert!(scene.sdf_terrain().is_some());

    clear(&mut scene);

    assert!(scene.sdf_edits().is_empty());
    assert!(scene.sdf_edit(edit).is_none());
    assert!(scene.sdf_terrain().is_none());
}

#[test]
fn sdf_edits_keep_their_authored_order() {
    let mut scene = scene();
    let edit = |shape| SdfEdit {
        shape,
        operation: 0,
        transform: identity_matrix(),
        params: [f(1.0); 4],
        blend: f(0.0),
    };
    let id = |index| SdfEditId(Entity { index, generation: 1 });
    scene.add_sdf_edit(edit(10), Ok(id(0))).unwrap();
    scene.add_sdf_edit(edit(11), Ok(id(1))).unwrap();
    scene.insert_sdf_edit(1, edit(12), Ok(id(2))).unwrap();
    let shapes = |scene: &Scene| scene.sdf_edits().iter().map(|e| e.shape).collect::<Vec<_>>();
    assert_eq!(shapes(&scene), vec![10, 12, 11]);
    scene.move_sdf_edit(id(1), 0, Ok(())).unwrap();
    assert_eq!(shapes(&scene), vec![11, 10, 12]);
    assert_eq!(scene.sdf_edit_id_at(0), Some(id(1)));
    assert_eq!(scene.sdf_edit_id_at(3), None);
    scene.update_sdf_edit(id(0), edit(20), Ok(())).unwrap();
    assert_eq!(scene.sdf_edit(id(0)).unwrap().shape, 20);
    assert_eq!(scene.remove_sdf_edit(id(2), Ok(())).unwrap().shape, 12);
    assert!(scene.add_sdf_edit(edit(0), Err(SdfAuthorityError::CapacityExceeded)).is_err());
    assert_eq!(shapes(&scene), vec![11, 20]);
    scene.clear_sdf_edits();
    assert!(scene.sdf_edits().is_empty());
}

fn sprite() -> SceneSpriteRow {
    SceneSpriteRow { body: [0; 16], atlas: None, physical_layer: None, authored_epoch: 0 }
}

#[test]
fn sprite_reserve_does_not_grow_unrelated_scene_partners() {
    let scene = scene();
    assert_eq!(scene.try_reserve_sprites(2_048, true), Ok(2_048));
    assert_eq!(scene.try_reserve_sprites(2_048, false), Err(SpriteAuthorityError::Capacity));
    assert_eq!(scene.reserve_sprites(64), 64);
    assert_eq!(scene.sprite_count(), 0);
    assert_eq!(scene.materials.len(), 0);
}

#[test]
fn scene_clear_releases_sprites_before_atlas_residency() {
    let mut scene = scene();
    let mut slots = Slots::new();
    let referenced_atlas = scene.add_sprite_atlas_layer(slots.take(), 1, 1, 0xFFFF_FFFF, 0);
    let unreferenced_atlas = scene.add_sprite_atlas_layer(slots.take(), 1, 1, 0xFF00_0000, 1);
    let mut row = sprite();
    row.atlas = Some(referenced_atlas);
    let id = scene.insert_sprite(slots.take(), row, 1);
    assert_eq!(scene.sprite_count(), 1);
    assert_eq!(scene.sprite_atlas_layer_count(), 2);
    assert_eq!(scene.sprite(id).unwrap().physical_layer, Some(0));

    clear(&mut scene);

    assert_eq!(scene.sprite_count(), 0);
    assert_eq!(scene.sprite_atlas_layer_count(), 0);
    assert!(scene.sprite(id).is_none());
    assert!(matches!(
        scene.try_remove_sprite(id),
        Err(SpriteAuthorityError::StaleSprite(stale)) if stale == id
    ));
    assert!(matches!(
        scene.try_remove_sprite_atlas_layer(referenced_atlas),
        Err(SpriteAuthorityError::StaleAtlas(stale)) if stale == referenced_atlas
    ));
    assert!(matches!(
        scene.try_remove_sprite_atlas_layer(unreferenced_atlas),
        Err(SpriteAuthorityError::StaleAtlas(stale)) if stale == unreferenced_atlas
    ));
}

#[test]
fn sprites_hold_the_layers_that_they_show() {
    let mut scene = scene();
    let mut slots = Slots::new();
    let atlas = scene
        .try_add_sprite_atlas_layer(slots.take(), 4, 2, 7, Ok(3))
        .unwrap();
    assert_eq!(
        scene.try_add_sprite_atlas_layer(slots.take(), 4, 2, 7, Err(SpriteAtlasError::Exhausted)),
        Err(SpriteAuthorityError::Atlas(SpriteAtlasError::Exhausted))
    );
    let mut row = sprite();
    row.atlas = Some(atlas);
    let id = scene.try_insert_sprite(slots.take(), row, 8, true).unwrap();
    let first_epoch = scene.sprite(id).unwrap().authored_epoch;
    assert_eq!(
        scene.try_remove_sprite_atlas_layer(atlas),
        Err(SpriteAuthorityError::Atlas(SpriteAtlasError::LayerInUse { references: 1 }))
    );
    row.atlas = None;
    scene.try_update_sprite(id, row).unwrap();
    assert_eq!(scene.sprite(id).unwrap().physical_layer, None);
    assert!(scene.sprite(id).unwrap().authored_epoch > first_epoch);
    scene.try_remove_sprite_atlas_layer(atlas).unwrap();
    row.atlas = Some(atlas);
    assert_eq!(
        scene.try_update_sprite(id, row),
        Err(SpriteAuthorityError::StaleAtlas(atlas))
    );
    assert_eq!(
        scene.try_insert_sprite(slots.take(), sprite(), 8, false),
        Err(SpriteAuthorityError::Capacity)
    );
    let removed = scene.try_remove_sprite(id).unwrap();
    assert_eq!(removed.body, [0; 16]);
    let gone = SceneSpriteId::from_raw(99, 1);
    assert_eq!(
        scene.try_update_sprite(gone, sprite()),
        Err(SpriteAuthorityError::StaleSprite(gone))
    );
    assert_eq!(scene.sprite_atlas_limits(), (256, 4096));
}

#[test]
fn cameras_remember_the_frame_before() {
    let mut scene = scene();
    let first = scene.update_camera(translation(1.0, 0.0, 0.0));
    assert_eq!(first.frame, 0);
    let second = scene.update_camera(translation(2.0, 0.0, 0.0));
    assert_eq!(second.prev_view_proj, translation(1.0, 0.0, 0.0));
    scene.update_stereo_cameras(translation(3.0, 0.0, 0.0));
    assert_eq!(
        scene.update_camera(identity_matrix()).prev_view_proj,
        translation(3.0, 0.0, 0.0)
    );
    scene.set_render_size(1920, 1080);
    assert_eq!((scene.frame.width, scene.frame.height), (1920, 1080));
}

#[test]
fn sublevel_members_carry_the_space_of_their_group() {
    let field = SpaceField { shift: 8, capacity: 32 };
    let tagged = field.set_coordinate_space(0xFFFF_FFFF, 5);
    assert_eq!(field.coordinate_space(tagged), 5);
    assert_eq!(tagged, 0xFFFF_E5FF);
    assert_eq!(field.set_coordinate_space(tagged, 0), 0xFFFF_E0FF);
}

#[test]
fn clearing_counts_the_lights_that_went() {
    let mut scene = scene();
    let mut slots = Slots::new();
    let mut lights = Rows::new();
    for i in 0..3u64 {
        let movability = if i == 1 { Movability::Static } else { Movability::Movable };
        scene.insert_light_with_movability(
            lights.take(&mut slots),
            GpuLight { shadow_index: 0, ..lamp() },
            Some(movability),
            i,
        );
    }
    flush(&mut scene);
    assert!(scene.lights.active_shadow_face_count > 0);
    let generation = scene.lights.generation;
    scene.bake_invalidated = false;
    clear(&mut scene);
    assert_eq!(scene.lights.generation, generation + 2);
    assert_eq!(scene.lights.active_shadow_face_count, 0);
    assert_eq!(scene.lights.shadow_matrix_count, 1);
    assert!(scene.bake_invalidated);
    clear(&mut scene);
    assert_eq!(scene.lights.generation, generation + 2);
}

#[test]
fn clearing_publishes_the_slots_of_extracted_volumes() {
    let mut scene = scene();
    let mut slots = Slots::new();
    let mut rows = Rows::new();
    let (desc, measure) = volume(VoxelMode::Auto, 1.0);
    scene.insert_voxel_volume(rows.take(&mut slots), desc, measure, bricks(0)).unwrap();
    flush(&mut scene);
    let generation = scene.voxels.mesh_work_generation;
    clear(&mut scene);
    assert_eq!(scene.voxels.mesh_work_generation, generation + 1);
    assert_eq!(scene.voxels.mesh_draw_count, 0);
    assert!(scene.voxels.mesh_work.iter().all(|work| work.flags == 0));
    clear(&mut scene);
    assert_eq!(scene.voxels.mesh_work_generation, generation + 1);
}

#[test]
fn proposed_portals_come_in_row_order() {
    let mut scene = scene();
    let mut slots = Slots::new();
    let place = |row: u32, slots: &mut Slots| NewRow { entity: slots.take(), gpu_row: row };
    let sites = [([0.0; 3], [0.0, 0.0, 8.0]), ([100.0, 0.0, 0.0], [100.0, 0.0, 8.0])];
    let (desc, measure) = portal(sites[0].0, sites[0].1, 2.0);
    let first = scene
        .add_portal(place(3, &mut slots), desc, measure, locals(&[sites[0]]))
        .unwrap();
    assert!(scene.spaces.is_free_row(1));
    assert!(!scene.spaces.is_free_row(3));
    assert!(!scene.spaces.is_free_row(0));
    assert!(!scene.spaces.is_free_row(32));

    let known = *scene.spaces.portals.get(first).unwrap();
    let proposed = scene.spaces.portals_with(PortalRecord { row: 1, ..known });
    assert_eq!(proposed.iter().map(|r| r.row).collect::<Vec<_>>(), vec![1, 3]);
    let proposed = scene.spaces.portals_with(PortalRecord { row: 5, ..known });
    assert_eq!(proposed.iter().map(|r| r.row).collect::<Vec<_>>(), vec![3, 5]);
    let moved = translation(1.0, 2.0, 3.0);
    let proposed = scene
        .spaces
        .portals_with_replaced(first, PortalRecord { a: moved, ..known });
    assert_eq!(proposed.len(), 1);
    assert_eq!(proposed[0].a, moved);
    // Proposing changes nothing.
    assert_eq!(scene.portal_pair(first), Some((desc.a, desc.b)));
}
