use std::sync::Arc;

use dashmap::DashMap;
use voxel_world::chunk_manager::ChunkManager;
use voxel_world::chunk_mesh::ChunkMesh;
use voxel_world::chunk_table::ChunkTable;
use voxel_world::mesh_data::{MeshData, CHUNK_AREA};

fn heights(h: i32) -> Vec<i32> {
    vec![h; CHUNK_AREA]
}

fn generate(m: &mut ChunkManager, x: i32, z: i32, h: i32) {
    assert!(m.request_chunk(x, z));
    m.complete_chunk(x, z, ChunkManager::generate_chunk_data(&heights(h)));
}

#[test]
fn request_starts_generation_once() {
    let mut m = ChunkManager::new();
    assert!(m.request_chunk(0, 0));
    assert!(!m.request_chunk(0, 0));
    m.complete_chunk(0, 0, ChunkManager::generate_chunk_data(&heights(1)));
    assert!(!m.request_chunk(0, 0));
    assert!(m.request_chunk(0, 1));
}

#[test]
fn meshing_waits_for_the_whole_neighbourhood() {
    let mut m = ChunkManager::new();
    generate(&mut m, 0, 0, 1);
    assert!(m.poll_voxel_completions(&vec![(0, 0)]).is_empty());
    generate(&mut m, 1, 0, 1);
    generate(&mut m, -1, 0, 1);
    generate(&mut m, 0, 1, 1);
    assert!(!m.try_dispatch_mesh(0, 0));
    generate(&mut m, 0, -1, 1);
    assert_eq!(m.poll_voxel_completions(&vec![(0, -1)]), vec![(0, 0)]);
    assert!(m.poll_voxel_completions(&vec![(0, -1)]).is_empty());
    assert!(!m.try_dispatch_mesh(0, 0));
    m.complete_mesh(0, 0);
    assert_eq!(m.poll_voxel_completions(&vec![(1, 0), (0, 0)]), vec![(0, 0)]);
}

#[test]
fn poll_offers_each_neighbour_in_order() {
    let mut m = ChunkManager::new();
    for x in -2..=2 {
        for z in -2..=2 {
            generate(&mut m, x, z, 1);
        }
    }
    let started = m.poll_voxel_completions(&vec![(0, 0)]);
    assert_eq!(started, vec![(0, 0), (1, 0), (-1, 0), (0, 1), (0, -1)]);
    let started = m.poll_voxel_completions(&vec![(1, 1), (0, 0)]);
    assert_eq!(started, vec![(1, 1)]);
}

#[test]
fn snapshot_gives_the_same_mesh() {
    let mut m = ChunkManager::new();
    let all: ChunkTable = DashMap::new();
    for (x, z, h) in [(0, 0, 2), (1, 0, -1), (-1, 0, 5), (0, 1, 0), (0, -1, 31), (5, 5, 1)] {
        generate(&mut m, x, z, h);
        all.insert((x, z), Arc::new(MeshData::generate_mesh_data(&heights(h))));
    }
    let snapshot = m.mesh_snapshot(0, 0);
    assert_eq!(snapshot.len(), 5);
    assert!(!snapshot.contains_key(&(5, 5)));
    let from_snapshot = ChunkMesh::build_mesh_data(0, 0, &snapshot);
    let from_all = ChunkMesh::build_mesh_data(0, 0, &all);
    assert_eq!(from_snapshot, from_all);
    all.clear();
}

#[test]
fn generating_and_meshing_are_reported() {
    let mut m = ChunkManager::new();
    assert!(!m.is_generating(3, 4));
    assert!(m.request_chunk(3, 4));
    assert!(m.is_generating(3, 4));
    m.complete_chunk(3, 4, ChunkManager::generate_chunk_data(&heights(0)));
    assert!(!m.is_generating(3, 4));
    for (x, z) in [(4, 4), (2, 4), (3, 5), (3, 3)] {
        generate(&mut m, x, z, 0);
    }
    assert!(!m.is_meshing(3, 4));
    assert!(m.try_dispatch_mesh(3, 4));
    assert!(m.is_meshing(3, 4));
    m.complete_mesh(3, 4);
    assert!(!m.is_meshing(3, 4));
}
