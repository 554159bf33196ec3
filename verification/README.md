# voxel_world

A voxel terrain engine whose chunk logic is verified with Verus.

`src/` is the verified library:

- `mesh_data` — the voxel layout of a 32×32×32 chunk (`get_index`) and the
  column fill that turns column heights into voxels.
- `chunk_table` — the `dashmap::DashMap` chunks are stored in, with the
  contracts of the map operations the library uses.
- `chunk_mesh` — face geometry, voxel lookup across chunk borders and the
  face-culled mesh of a chunk, with the laws its output obeys.
- `chunk_manager` — which chunks to generate and to mesh, and when.
- `data_manager`, `world_manager` — generation of the fixed world.
- `chunk`, `camera_controller` — small data types used by the renderer.

`app/` is the program around it: the wgpu/winit renderer, Perlin-noise
column heights (floating point), the GPU vertex format, and the threads and
channels that run chunk generation and meshing.
