use std::sync::Arc;

use dashmap::DashMap;
use voxel_world::chunk::Chunk;
use voxel_world::chunk_mesh::{ChunkMesh, Vertex};
use voxel_world::chunk_table::ChunkTable;
use voxel_world::mesh_data::{MeshData, CHUNK_AREA};

fn chunk(h: i32) -> Arc<MeshData> {
    Arc::new(MeshData::generate_mesh_data(&vec![h; CHUNK_AREA]))
}

fn v(p: (i64, i64, i64), t: (u32, u32), block_type: u32, light: u32) -> Vertex {
    Vertex { position: p, tex_coords: t, block_type, light }
}

#[test]
fn face_vertices_of_each_face() {
    let q = ChunkMesh::get_face_vertices(0, 5, 6, 7, 1);
    assert_eq!(
        q,
        [
            v((6, 6, 8), (1, 1), 1, 70),
            v((6, 6, 7), (0, 1), 1, 70),
            v((6, 7, 7), (0, 0), 1, 70),
            v((6, 7, 8), (1, 0), 1, 70),
        ]
    );
    let q = ChunkMesh::get_face_vertices(1, 5, 6, 7, 2);
    assert_eq!(q[0], v((5, 6, 7), (1, 1), 2, 70));
    assert_eq!(q[2], v((5, 7, 8), (0, 0), 2, 70));
    let q = ChunkMesh::get_face_vertices(2, 0, 0, 0, 1);
    assert_eq!(
        q,
        [
            v((1, 1, 0), (1, 1), 1, 100),
            v((0, 1, 0), (0, 1), 1, 100),
            v((0, 1, 1), (0, 0), 1, 100),
            v((1, 1, 1), (1, 0), 1, 100),
        ]
    );
    let q = ChunkMesh::get_face_vertices(3, 0, 0, 0, 1);
    assert_eq!(q[3], v((1, 0, 0), (1, 0), 1, 40));
    let q = ChunkMesh::get_face_vertices(4, 0, 0, 0, 1);
    assert_eq!(q[1], v((1, 0, 1), (0, 1), 1, 85));
    let q = ChunkMesh::get_face_vertices(5, -3, 0, 0, 1);
    assert_eq!(q[0], v((-2, 0, 0), (1, 1), 1, 50));
    assert_eq!(q[2], v((-3, 1, 0), (0, 0), 1, 50));
}

#[test]
fn face_vertices_do_not_overflow_at_the_edge_of_i32() {
    let q = ChunkMesh::get_face_vertices(0, i32::MAX, i32::MAX, i32::MAX, 1);
    let m = i32::MAX as i64;
    assert_eq!(q[0].position, (m + 1, m, m + 1));
}

#[test]
fn get_voxel_outside_the_world_and_across_chunks() {
    let table: ChunkTable = DashMap::new();
    table.insert((0, 0), chunk(3));
    table.insert((1, 0), chunk(-1));
    assert_eq!(ChunkMesh::get_voxel(0, -1, 0, 0, 0, &table), 1);
    assert_eq!(ChunkMesh::get_voxel(0, 32, 0, 0, 0, &table), 0);
    assert_eq!(ChunkMesh::get_voxel(4, 3, 4, 0, 0, &table), 1);
    assert_eq!(ChunkMesh::get_voxel(4, 4, 4, 0, 0, &table), 0);
    assert_eq!(ChunkMesh::get_voxel(32, 0, 4, 0, 0, &table), 0);
    assert_eq!(ChunkMesh::get_voxel(-1, 0, 4, 0, 0, &table), 1);
    assert_eq!(ChunkMesh::get_voxel(-1, 10, 4, 0, 0, &table), 1);
    assert_eq!(ChunkMesh::get_voxel(4, 10, 32, 0, 0, &table), 1);
    assert_eq!(ChunkMesh::get_voxel(31, 0, 4, -1, 0, &table), 1);
    assert_eq!(ChunkMesh::get_voxel(32, 10, 4, -1, 0, &table), 0);
    assert_eq!(ChunkMesh::get_voxel(32, 2, 4, -1, 0, &table), 1);
}

#[test]
fn build_mesh_of_a_missing_chunk_is_empty() {
    let table: ChunkTable = DashMap::new();
    table.insert((1, 0), chunk(3));
    let (vertices, indices) = ChunkMesh::build_mesh_data(0, 0, &table);
    assert!(vertices.is_empty());
    assert!(indices.is_empty());
}

#[test]
fn build_mesh_of_an_all_air_chunk_is_empty() {
    let table: ChunkTable = DashMap::new();
    table.insert((0, 0), chunk(-1));
    let (vertices, indices) = ChunkMesh::build_mesh_data(0, 0, &table);
    assert!(vertices.is_empty());
    assert!(indices.is_empty());
}

#[test]
fn flat_layer_alone_shows_only_its_top_faces() {
    let table: ChunkTable = DashMap::new();
    table.insert((2, -1), chunk(0));
    let (vertices, indices) = ChunkMesh::build_mesh_data(2, -1, &table);
    assert_eq!(vertices.len(), 4 * 1024);
    assert_eq!(indices.len(), 6 * 1024);
    assert!(vertices.iter().all(|v| v.light == 100 && v.position.1 == 1 && v.block_type == 1));
    assert_eq!(
        &vertices[0..4],
        &[
            v((65, 1, -32), (1, 1), 1, 100),
            v((64, 1, -32), (0, 1), 1, 100),
            v((64, 1, -31), (0, 0), 1, 100),
            v((65, 1, -31), (1, 0), 1, 100),
        ]
    );
    assert_eq!(vertices[4].position, (66, 1, -32));
    assert_eq!(vertices[4 * 32].position, (65, 1, -31));
    assert_eq!(&indices[0..12], &[0, 1, 2, 2, 3, 0, 4, 5, 6, 6, 7, 4]);
    assert!(indices.iter().all(|i| (*i as usize) < vertices.len()));
}

#[test]
fn air_neighbour_exposes_the_side_faces() {
    let table: ChunkTable = DashMap::new();
    table.insert((0, 0), chunk(0));
    table.insert((1, 0), chunk(-1));
    let (vertices, indices) = ChunkMesh::build_mesh_data(0, 0, &table);
    assert_eq!(vertices.len(), 4 * (1024 + 32));
    assert_eq!(indices.len(), 6 * (1024 + 32));
    let east: Vec<&Vertex> = vertices.iter().filter(|v| v.light == 70).collect();
    assert_eq!(east.len(), 4 * 32);
    assert!(east.iter().all(|v| v.position.0 == 32));
}

#[test]
fn mesh_indices_follow_the_quad_pattern() {
    let mut heights = vec![2; CHUNK_AREA];
    for i in 0..CHUNK_AREA {
        heights[i] = ((i * 13) % 9) as i32;
    }
    let table: ChunkTable = DashMap::new();
    table.insert((0, 0), Arc::new(MeshData::generate_mesh_data(&heights)));
    let (vertices, indices) = ChunkMesh::build_mesh_data(0, 0, &table);
    assert_eq!(vertices.len() % 4, 0);
    assert_eq!(indices.len(), vertices.len() / 4 * 6);
    for (q, six) in indices.chunks(6).enumerate() {
        let b = 4 * q as u32;
        assert_eq!(six, &[b, b + 1, b + 2, b + 2, b + 3, b]);
    }
}

#[test]
fn new_chunk_places_the_mesh_on_the_ground() {
    let mesh = ChunkMesh { num_indices: 12, chunk_x: 3, chunk_z: -4 };
    let c = Chunk::new_chunk(3, -4, mesh);
    assert_eq!(c.chunk_position_x, 3);
    assert_eq!(c.chunk_positon_y, 0);
    assert_eq!(c.chunk_position_z, -4);
    assert_eq!(c.chunk_mesh.num_indices, 12);
    assert_eq!(c.chunk_mesh.chunk_x, 3);
    assert_eq!(c.chunk_mesh.chunk_z, -4);
}

#[test]
fn mesh_moves_with_its_chunk() {
    let shapes = [(0, 2), (1, -1), (-1, 5), (0, 0), (0, -1)];
    let offsets = [(0, 0), (1, 0), (-1, 0), (0, 1), (0, -1)];
    let a: ChunkTable = DashMap::new();
    let b: ChunkTable = DashMap::new();
    for ((ox, oz), (_, h)) in offsets.iter().zip(shapes.iter()) {
        a.insert((2 + ox, -3 + oz), chunk(*h));
        b.insert((7 + ox, 4 + oz), chunk(*h));
    }
    let (va, ia) = ChunkMesh::build_mesh_data(2, -3, &a);
    let (vb, ib) = ChunkMesh::build_mesh_data(7, 4, &b);
    assert!(!va.is_empty());
    assert_eq!(ia, ib);
    assert_eq!(va.len(), vb.len());
    for (p, q) in va.iter().zip(vb.iter()) {
        assert_eq!(q.position, (p.position.0 + 5 * 32, p.position.1, p.position.2 + 7 * 32));
        assert_eq!((q.tex_coords, q.block_type, q.light), (p.tex_coords, p.block_type, p.light));
    }
}
