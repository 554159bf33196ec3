use vstd::prelude::*;
use crate::chunk_mesh::ChunkMesh;

verus! {

/// A chunk placed in the world: its chunk coordinates and its mesh.
pub struct Chunk {
    pub chunk_position_x: i32,
    pub chunk_positon_y: i32,
    pub chunk_position_z: i32,
    pub chunk_mesh: ChunkMesh,
}

impl Chunk {
    /// Places a mesh at chunk coordinates `(chunk_x, chunk_z)`; chunks are not stacked,
    /// so the vertical chunk position is always 0.
    pub fn new_chunk(chunk_x: i32, chunk_z: i32, chunk_mesh: ChunkMesh) -> (chunk: Chunk)
        ensures
            chunk.chunk_position_x == chunk_x,
            chunk.chunk_positon_y == 0,
            chunk.chunk_position_z == chunk_z,
            chunk.chunk_mesh == chunk_mesh,
    {
        let chunk = Self {
            chunk_position_x: chunk_x,
            chunk_positon_y: 0,
            chunk_position_z: chunk_z,
            chunk_mesh: chunk_mesh,
        };
        chunk
    }
}

} // verus!
