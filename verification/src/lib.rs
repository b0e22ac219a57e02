//! Verified core of the Helio scene layer.

pub mod actors;
pub mod admission;
pub mod authorship;
pub mod bake;
pub mod baking;
pub mod bricks;
pub mod clear;
pub mod counting;
pub mod custody;
pub mod decals;
pub mod drawing;
pub mod draws;
pub mod editing;
pub mod entity_projection;
pub mod errors;
pub mod extension;
pub mod extension_views;
pub mod float_bits;
pub mod flush;
pub mod foliage;
pub mod foliage_debug;
pub mod foliage_edits;
pub mod foliage_rows;
pub mod frame;
pub mod ground;
pub mod group_edits;
pub mod groups;
pub mod groves;
pub mod handles;
pub mod histories;
pub mod laws;
pub mod lifecycle;
pub mod light_projection;
pub mod lights;
pub mod materials;
pub mod membership;
pub mod meshes;
pub mod motion;
pub mod numbers;
pub mod object_draws;
pub mod objects;
pub mod ordering;
pub mod outstanding;
pub mod planar_reflections;
pub mod planet_frames;
pub mod portal_chains;
pub mod portal_showing;
pub mod portals;
pub mod post_process;
pub mod presentation;
pub mod projected_table;
pub mod publication;
pub mod references;
pub mod reflection_projection;
pub mod reflections;
pub mod resources;
pub mod round_trips;
pub mod rows;
pub mod runs;
pub mod scene;
pub mod scene_actors;
pub mod scene_drawing;
pub mod sdf;
pub mod sectioned;
pub mod sectioned_objects;
pub mod selecting;
pub mod selection;
pub mod sequences;
pub mod setup;
pub mod shadow_budget;
pub mod shadow_service;
pub mod spaces;
pub mod sparse_set;
pub mod sprites;
pub mod sublevels;
pub mod tags;
pub mod terrain;
pub mod updates;
pub mod virtual_drawing;
pub mod virtual_geometry;
pub mod virtual_objects;
pub mod voxel_edits;
pub mod voxel_mesh_projection;
pub mod voxels;
pub mod water;
pub mod water_projection;
pub mod water_rows;
pub mod waters;
pub mod words;
