//! The scene as it is made: empty.
use vstd::prelude::*;

use crate::actors::Actors;
use crate::draws::{DrawLists, MaterialFlagBits};
use crate::entity_projection::EntityRowProjection;
use crate::extension::SceneData;
use crate::float_bits::from_bits;
use crate::foliage::{all_relations, projections, relation_total, Foliage, Wind};
use crate::frame::FrameState;
use crate::groups::GroupMask;
use crate::handles::{MaterialId, MeshId, VirtualMeshId};
use crate::light_projection::LightProjection;
use crate::lights::Lights;
use crate::objects::{Objects, ShadowPartitions};
use crate::planet_frames::PlanetFrames;
use crate::portal_chains::{build_portal_chains, portal_chains, Reachability};
use crate::post_process::PostProcess;
use crate::presentation::ScenePresentation;
use crate::projected_table::ProjectedTable;
use crate::references::{
    foliage_materials, material_uses, mesh_uses, object_materials, object_meshes,
    virtual_materials,
};
use crate::reflections::Reflections;
use crate::scene::Scene;
use crate::sdf::SdfEdits;
use crate::sectioned::Sections;
use crate::spaces::{
    identity, identity_matrix, ordered_portals, portal_views, reachability, PortalRecord,
    SpaceField, SpaceHistory, Spaces,
};
use crate::sparse_set::SparseSet;
use crate::sprites::Sprites;
use crate::virtual_geometry::{object_assets, virtual_mesh_uses, VirtualGeometry};
use crate::voxel_mesh_projection::VoxelMeshProjection;
use crate::voxels::Voxels;
use crate::water::Water;
use crate::water_projection::WaterVolumeProjection;

verus! {

/// What a scene is told of the renderer and the device.
#[derive(Clone, Copy, Debug)]
pub struct SceneConfig {
    pub space_field: SpaceField,
    pub flag_bits: MaterialFlagBits,
    /// Flag of an extraction row whose output slot is owned.
    pub voxel_allocated_flag: u32,
    /// Emitters that the corona table holds.
    pub corona_capacity: usize,
    /// Atlas layers that can be imported, and the greatest width or height of one.
    pub sprite_limits: (u32, u32),
    pub wind: Wind,
}

/// Layers of the shadow atlas unless another number is set.
pub const DEFAULT_SHADOW_FACES: u32 = 32;

impl DrawLists {
    /// Nothing is drawn.
    pub open spec fn blank(&self) -> bool {
        &&& self.order@.len() == 0
        &&& self.source_indices@.len() == 0
        &&& self.visibility@.len() == 0
        &&& self.draw_calls@.len() == 0
        &&& self.indirect@.len() == 0
        &&& self.draw_material_rows@.len() == 0
        &&& self.opaque_ranges@.len() == 0
        &&& self.transparent_ranges@.len() == 0
        &&& self.forward_ranges@.len() == 0
    }
}

impl ShadowPartitions {
    /// Nothing casts a shadow, and nothing ever did.
    pub open spec fn blank(&self) -> bool {
        &&& self.static_sources@.len() == 0
        &&& self.static_indirect@.len() == 0
        &&& self.movable_sources@.len() == 0
        &&& self.movable_indirect@.len() == 0
        &&& self.static_generation == 0
        &&& self.movable_topology_generation == 0
    }
}

impl Objects {
    /// No objects, and nothing published yet.
    pub open spec fn fresh(&self) -> bool {
        &&& self.records.spec_len() == 0
        &&& self.projection_slots@.len() == 0
        &&& self.dirty
        &&& self.static_dirty
        &&& self.movable_generation == 0
        &&& self.lists.blank()
        &&& self.topology_generation == 0
        &&& self.shadow.blank()
    }

    /// No objects; the first flush builds the lists and the static shadow atlas.
    pub fn new() -> (objects: Self)
        ensures
            objects.records.wf(),
            objects.fresh(),
    {
        Objects {
            records: SparseSet::new(),
            projection_slots: Vec::new(),
            dirty: true,
            static_dirty: true,
            movable_generation: 0,
            lists: DrawLists {
                order: Vec::new(),
                source_indices: Vec::new(),
                visibility: Vec::new(),
                draw_calls: Vec::new(),
                indirect: Vec::new(),
                draw_material_rows: Vec::new(),
                opaque_ranges: Vec::new(),
                transparent_ranges: Vec::new(),
                forward_ranges: Vec::new(),
            },
            topology_generation: 0,
            shadow: ShadowPartitions {
                static_sources: Vec::new(),
                static_indirect: Vec::new(),
                movable_sources: Vec::new(),
                movable_indirect: Vec::new(),
                static_generation: 0,
                movable_topology_generation: 0,
            },
        }
    }
}

impl Lights {
    /// No lights, and nothing ranked yet.
    pub open spec fn fresh(&self) -> bool {
        &&& self.records.spec_len() == 0
        &&& self.projection.rows.spec_len() == 0
        &&& !self.projection.atlas_dirty
        &&& self.slots@.len() == 0
        &&& self.generation == 0
        &&& self.shadow_face_capacity == DEFAULT_SHADOW_FACES
        &&& self.active_shadow_face_count == 0
        &&& self.shadow_matrix_count == 0
        &&& forall|i: int| 0 <= i < 42 ==> #[trigger] self.caster_hashes[i] == 0
    }

    pub fn new() -> (lights: Self)
        ensures
            lights.wf(),
            lights.fresh(),
    {
        Lights {
            records: SparseSet::new(),
            projection: LightProjection::new(),
            slots: Vec::new(),
            generation: 0,
            shadow_face_capacity: DEFAULT_SHADOW_FACES,
            active_shadow_face_count: 0,
            shadow_matrix_count: 0,
            caster_hashes: [0; 42],
        }
    }
}

impl Water {
    /// No water, and every heightfield is free, the lowest first.
    pub open spec fn fresh(&self) -> bool {
        &&& self.volumes.spec_len() == 0
        &&& self.projection.sim_slots@.len() == 0
        &&& self.projection.free_sim_slots@ == seq![7u32, 6, 5, 4, 3, 2, 1, 0]
        &&& forall|i: int| 0 <= i < 8 ==> #[trigger] self.slot_generations[i] == 0
        &&& self.hitboxes.spec_len() == 0
    }

    pub fn new() -> (water: Self)
        ensures
            water.wf(),
            water.fresh(),
    {
        Water {
            volumes: SparseSet::new(),
            projection: WaterVolumeProjection::new(),
            slot_generations: [0; 8],
            hitboxes: ProjectedTable::new(),
        }
    }
}

impl VirtualGeometry {
    /// No virtual geometry, and nothing published yet.
    pub open spec fn fresh(&self) -> bool {
        &&& self.meshes.spec_len() == 0
        &&& self.objects.spec_len() == 0
        &&& !self.dirty
        &&& self.buffer_version == 0
        &&& self.instance_dirty_range is None
        &&& self.published_dirty_range is None
        &&& self.instance_version == 0
        &&& self.cull_signature_version == 0
        &&& self.projection_slots@.len() == 0
        &&& self.cpu_instances@.len() == 0
        &&& self.cpu_visibility@.len() == 0
    }

    pub fn new() -> (geometry: Self)
        ensures
            geometry.fresh(),
            forall|hidden: GroupMask| #[trigger] geometry.wf(hidden),
    {
        let geometry = VirtualGeometry {
            meshes: SparseSet::new(),
            objects: SparseSet::new(),
            dirty: false,
            buffer_version: 0,
            instance_dirty_range: None,
            published_dirty_range: None,
            instance_version: 0,
            cull_signature_version: 0,
            projection_slots: Vec::new(),
            cpu_instances: Vec::new(),
            cpu_visibility: Vec::new(),
        };
        proof {
            assert(object_assets(geometry.spec_values()).len() == 0);
            assert forall|m: VirtualMeshId| #[trigger] virtual_mesh_uses(geometry.spec_values(), m)
                == 0 by {}
        }
        geometry
    }
}

impl Foliage {
    pub fn new(wind: Wind) -> (foliage: Self)
        ensures
            foliage.wf(),
            foliage.types.spec_len() == 0,
            foliage.layers.spec_len() == 0,
            foliage.interactors.spec_len() == 0,
            foliage.generation == 0,
            foliage.wind == wind,
    {
        let foliage = Foliage {
            types: ProjectedTable::new(),
            layers: ProjectedTable::new(),
            interactors: ProjectedTable::new(),
            layer_projections: Vec::new(),
            relations: Vec::new(),
            generation: 0,
            max_height: from_bits(0),
            max_density: from_bits(0),
            wind,
        };
        proof {
            assert(relation_total(foliage.spec_layers()) == 0);
            assert(foliage.relations@ =~= all_relations(foliage.types, foliage.spec_layers()));
            assert(foliage.layer_projections@ =~= projections(
                foliage.spec_layers(),
                foliage.layers.spec_rows(),
            ));
        }
        foliage
    }
}

impl Spaces {
    /// Only the world's space.
    pub fn new(field: SpaceField) -> (spaces: Self)
        requires
            field.wf(),
        ensures
            spaces.wf(),
            spaces.field == field,
            spaces.sublevels.spec_len() == 0,
            spaces.portals.spec_len() == 0,
    {
        let none: Vec<PortalRecord> = Vec::new();
        let locals: Vec<Vec<[crate::float_bits::F32; 3]>> = Vec::new();
        let ordered: Vec<PortalRecord> = ordered_portals(&none, field.capacity);
        proof {
            crate::portals::lemma_all_ordered(none@, field.capacity as int);
        }
        let reach: Reachability = reachability(&ordered, &locals);
        let chains = match build_portal_chains(&reach, 0) {
            Some(chains) => chains,
            None => {
                proof {
                    reveal_with_fuel(crate::portal_chains::chains_from, 2);
                    assert(crate::portal_chains::chains_through(
                        reach@,
                        0,
                        Seq::<u32>::empty(),
                        crate::portal_chains::MAX_CHAIN_DEPTH as nat,
                        0,
                    ).len() == 0);
                    assert(false);
                }
                Vec::new()
            },
        };
        let spaces = Spaces {
            field,
            sublevels: SparseSet::new(),
            portals: SparseSet::new(),
            history: SpaceHistory::new(field.capacity),
            portal_views: portal_views(&ordered),
            locals,
            portal_chains: chains,
        };
        proof {
            assert(spaces.portals.value_by_slot@ =~= none@);
            assert(spaces.ordered() == ordered@);
        }
        spaces
    }
}

impl Voxels {
    /// No volumes, and no output slot was ever used.
    pub open spec fn fresh(&self) -> bool {
        &&& self.volumes.spec_len() == 0
        &&& self.raymarched.spec_len() == 0
        &&& self.meshes.regions@.len() == 0
        &&& self.meshes.rows@.len() == 0
        &&& self.mesh_work@.len() == 0
        &&& self.mesh_work_generation == 0
        &&& self.mesh_draw_count == 0
    }

    pub fn new(allocated_flag: u32) -> (voxels: Self)
        ensures
            voxels.wf(),
            voxels.fresh(),
            voxels.meshes.allocated_flag == allocated_flag,
    {
        Voxels {
            volumes: SparseSet::new(),
            raymarched: EntityRowProjection::new(),
            meshes: VoxelMeshProjection::new(allocated_flag),
            mesh_work: Vec::new(),
            mesh_work_generation: 0,
            mesh_draw_count: 0,
        }
    }
}

impl Scene {
    /// An empty scene.
    #[verifier::spinoff_prover]
    #[verifier::rlimit(40)]
    pub fn new(config: SceneConfig) -> (scene: Scene)
        requires
            config.space_field.wf(),
        ensures
            scene.wf(),
            scene.is_empty(),
            scene.objects.fresh(),
            scene.lights.fresh(),
            scene.water.fresh(),
            scene.virtual_geometry.fresh(),
            scene.voxels.fresh(),
            scene.foliage.generation == 0,
            !scene.bake_invalidated,
            scene.published_graph_epoch == u64::MAX,
            scene.sprites.next_epoch == 1,
            scene.sprites.limits == config.sprite_limits,
            scene.presentation.billboard_generation == 0,
            scene.presentation.corona_generation == 0,
            scene.presentation.corona_reset_epoch == 0,
            scene.material_flags@.len() == 0,
            scene.spaces.field == config.space_field,
            scene.flag_bits == config.flag_bits,
            scene.voxels.meshes.allocated_flag == config.voxel_allocated_flag,
            scene.presentation.corona_capacity == config.corona_capacity,
            scene.foliage.wind == config.wind,
            scene.frame == (FrameState {
                sky: None,
                prev_view_proj: identity(),
                camera_generation: 0,
                frame_count: 0,
                width: 0,
                height: 0,
            }),
            scene.data.policies@.len() == 0,
    {
        let scene = Scene {
            actors: Actors::new(),
            data: SceneData::new(),
            lights: Lights::new(),
            decals: ProjectedTable::new(),
            water: Water::new(),
            post_process: PostProcess::new(),
            reflections: Reflections::new(),
            planar_reflectors: ProjectedTable::new(),
            textures: SparseSet::new(),
            materials: SparseSet::new(),
            material_flags: Vec::new(),
            flag_bits: config.flag_bits,
            meshes: SparseSet::new(),
            objects: Objects::new(),
            sections: Sections {
                multi_meshes: SparseSet::new(),
                instances: SparseSet::new(),
                instance_of: SparseSet::new(),
            },
            virtual_geometry: VirtualGeometry::new(),
            foliage: Foliage::new(config.wind),
            spaces: Spaces::new(config.space_field),
            voxels: Voxels::new(config.voxel_allocated_flag),
            sprites: Sprites {
                sprites: SparseSet::new(),
                layers: SparseSet::new(),
                next_epoch: 1,
                limits: config.sprite_limits,
            },
            sdf: SdfEdits::new(),
            planets: PlanetFrames::new(),
            presentation: ScenePresentation {
                billboards: Vec::new(),
                billboard_generation: 0,
                corona_emitters: Vec::new(),
                corona_generation: 0,
                corona_reset_epoch: 0,
                corona_capacity: config.corona_capacity,
            },
            frame: FrameState {
                sky: None,
                prev_view_proj: identity_matrix(),
                camera_generation: 0,
                frame_count: 0,
                width: 0,
                height: 0,
            },
            published_graph_epoch: u64::MAX,
            hidden_groups: GroupMask(0),
            bake_invalidated: false,
        };
        proof {
            let objects = scene.objects.spec_values();
            let virtuals = scene.virtual_geometry.spec_values();
            let types = scene.foliage.spec_types();
            assert(scene.virtual_geometry.wf(scene.hidden_groups));
            assert(object_meshes(objects).len() == 0);
            assert(object_materials(objects).len() == 0);
            assert(virtual_materials(virtuals).len() == 0);
            assert(foliage_materials(types).len() == 0);
            assert forall|m: MeshId| #[trigger] mesh_uses(objects, m) == 0 by {}
            assert forall|m: MaterialId| #[trigger] material_uses(objects, virtuals, types, m)
                == 0 by {}
        }
        scene
    }
}

} // verus!
