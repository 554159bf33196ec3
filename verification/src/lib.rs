//! Voxel terrain chunks: voxel storage layout, column terrain, face-culled
//! meshing of a chunk against its neighbours, and the bookkeeping that
//! decides which chunks get generated and meshed.

pub mod mesh_data;
pub mod chunk_table;
pub mod chunk_mesh;
pub mod chunk;
pub mod chunk_manager;
pub mod world_manager;
pub mod data_manager;
pub mod camera_controller;
