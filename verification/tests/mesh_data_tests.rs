use voxel_world::mesh_data::{MeshData, CHUNK_AREA, CHUNK_SIZE, CHUNK_VOLUME};

fn flat_heights(h: i32) -> Vec<i32> {
    vec![h; CHUNK_AREA]
}

#[test]
fn get_index_orders_x_then_y_then_z() {
    assert_eq!(MeshData::get_index(0, 0, 0), 0);
    assert_eq!(MeshData::get_index(1, 0, 0), 1);
    assert_eq!(MeshData::get_index(0, 1, 0), 32);
    assert_eq!(MeshData::get_index(0, 0, 1), 1024);
    assert_eq!(MeshData::get_index(1, 2, 3), 1 + 2 * 32 + 3 * 1024);
    assert_eq!(MeshData::get_index(31, 31, 31), CHUNK_VOLUME - 1);
}

#[test]
fn get_index_is_a_bijection_on_the_chunk() {
    let mut seen = vec![false; CHUNK_VOLUME];
    for z in 0..CHUNK_SIZE {
        for y in 0..CHUNK_SIZE {
            for x in 0..CHUNK_SIZE {
                let i = MeshData::get_index(x, y, z);
                assert!(i < CHUNK_VOLUME);
                assert!(!seen[i]);
                seen[i] = true;
            }
        }
    }
    assert!(seen.iter().all(|s| *s));
}

#[test]
fn flat_terrain_fills_up_to_the_height() {
    let data = MeshData::generate_mesh_data(&flat_heights(3));
    for z in 0..CHUNK_SIZE {
        for x in 0..CHUNK_SIZE {
            for y in 0..CHUNK_SIZE {
                let expected = if y <= 3 { 1 } else { 0 };
                assert_eq!(data.voxels[MeshData::get_index(x, y, z)], expected);
            }
        }
    }
}

#[test]
fn negative_height_gives_an_empty_column_and_tall_height_a_full_one() {
    let mut heights = flat_heights(-1);
    heights[5 + 7 * 32] = 100;
    let data = MeshData::generate_mesh_data(&heights);
    let solid: usize = data.voxels.iter().filter(|v| **v != 0).count();
    assert_eq!(solid, 32);
    for y in 0..CHUNK_SIZE {
        assert_eq!(data.voxels[MeshData::get_index(5, y, 7)], 1);
        assert_eq!(data.voxels[MeshData::get_index(7, y, 5)], 0);
    }
}

#[test]
fn column_heights_are_read_by_x_plus_z_times_size() {
    let mut heights = flat_heights(0);
    heights[2 + 9 * 32] = 4;
    let data = MeshData::generate_mesh_data(&heights);
    assert_eq!(data.voxels[MeshData::get_index(2, 4, 9)], 1);
    assert_eq!(data.voxels[MeshData::get_index(2, 5, 9)], 0);
    assert_eq!(data.voxels[MeshData::get_index(9, 4, 2)], 0);
    assert_eq!(data.voxels[MeshData::get_index(9, 0, 2)], 1);
}

#[test]
fn terrain_columns_are_filled_from_the_bottom() {
    let heights: Vec<i32> = (0..CHUNK_AREA).map(|i| (i as i32 * 7) % 40 - 4).collect();
    let data = MeshData::generate_mesh_data(&heights);
    for z in 0..CHUNK_SIZE {
        for x in 0..CHUNK_SIZE {
            let mut seen_air = false;
            for y in 0..CHUNK_SIZE {
                let v = data.voxels[MeshData::get_index(x, y, z)];
                if v == 0 {
                    seen_air = true;
                } else {
                    assert!(!seen_air);
                }
            }
        }
    }
}
