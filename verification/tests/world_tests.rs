use voxel_world::chunk_mesh::ChunkMesh;
use voxel_world::data_manager::DataManager;
use voxel_world::mesh_data::{MeshData, CHUNK_AREA};
use voxel_world::world_manager::{world_chunk_coords, xmax, xmin, zmax, zmin, WORLD_CHUNKS};

#[test]
fn world_coords_run_x_outer_z_inner() {
    let coords = world_chunk_coords();
    assert_eq!(coords.len(), WORLD_CHUNKS);
    assert_eq!(coords.len(), ((xmax - xmin + 1) * (zmax - zmin + 1)) as usize);
    assert_eq!(coords[0], (-25, -25));
    assert_eq!(coords[1], (-25, -24));
    assert_eq!(coords[50], (-25, 25));
    assert_eq!(coords[51], (-24, -25));
    assert_eq!(coords[WORLD_CHUNKS - 1], (25, 25));
    let distinct: std::collections::HashSet<(i32, i32)> = coords.iter().copied().collect();
    assert_eq!(distinct.len(), WORLD_CHUNKS);
    assert!(coords.iter().all(|(x, z)| (xmin..=xmax).contains(x) && (zmin..=zmax).contains(z)));
}

#[test]
fn data_manager_generates_every_chunk_of_the_world() {
    let coords = world_chunk_coords();
    let heights: Vec<Vec<i32>> =
        coords.iter().map(|(x, z)| vec![(x + z).rem_euclid(7); CHUNK_AREA]).collect();
    let manager = DataManager::generate_chunk_data(&heights);
    assert_eq!(manager.chunk_data_dictionary.len(), WORLD_CHUNKS);
    for (i, (key, data)) in manager.chunk_data_dictionary.iter().enumerate() {
        assert_eq!(*key, coords[i]);
        let h = (key.0 + key.1).rem_euclid(7);
        assert_eq!(data.voxels[MeshData::get_index(3, h, 3)], 1);
        assert_eq!(data.voxels[MeshData::get_index(3, h + 1, 3)], 0);
    }
    let table = manager.into_chunk_table();
    assert_eq!(table.len(), WORLD_CHUNKS);
    assert!(table.contains_key(&(-25, 25)));
    assert!(!table.contains_key(&(26, 0)));
    let (vertices, indices) = ChunkMesh::build_mesh_data(0, 0, &table);
    assert_eq!(vertices.len() / 4 * 6, indices.len());
    assert!(!vertices.is_empty());
}
