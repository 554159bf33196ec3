use vstd::prelude::*;
use std::sync::Arc;
use crate::chunk_table::{ChunkTable, stored_chunks, new_chunk_table, chunk_table_insert};
use crate::mesh_data::{MeshData, CHUNK_AREA, is_terrain};
use crate::world_manager::{
    xmin, xmax, zmin, zmax, WORLD_CHUNKS, WORLD_DEPTH_CHUNKS, world_chunk_key,
    lemma_world_chunk_key, lemma_world_chunk_keys_distinct,
};

verus! {

/// The generated voxels of every chunk of the world, keyed by chunk coordinates.
/// Each key occurs at most once (see `wf`).
pub struct DataManager {
    pub chunk_data_dictionary: Vec<((i32, i32), MeshData)>,
}

impl DataManager {
    /// No chunk coordinates occur twice in the dictionary.
    pub open spec fn wf(&self) -> bool {
        forall|i: int, j: int|
            0 <= i < self.chunk_data_dictionary@.len() && 0 <= j < self.chunk_data_dictionary@.len()
                && i != j ==> #[trigger] self.chunk_data_dictionary@[i].0
                != #[trigger] self.chunk_data_dictionary@[j].0
    }

    /// Generates every chunk of the world, x from `xmin` to `xmax` in the outer loop and z
    /// from `zmin` to `zmax` in the inner one; `column_heights[i]` are the column heights of
    /// the `i`-th chunk in that order (see `world_chunk_coords`).
    pub fn generate_chunk_data(column_heights: &Vec<Vec<i32>>) -> (manager: DataManager)
        requires
            column_heights@.len() == WORLD_CHUNKS,
            forall|i: int| 0 <= i < WORLD_CHUNKS ==> (#[trigger] column_heights@[i])@.len() == CHUNK_AREA,
        ensures
            manager.chunk_data_dictionary@.len() == WORLD_CHUNKS,
            forall|i: int|
                0 <= i < WORLD_CHUNKS ==> (#[trigger] manager.chunk_data_dictionary@[i]).0
                    == world_chunk_key(i) && is_terrain(
                    manager.chunk_data_dictionary@[i].1.voxels@,
                    column_heights@[i]@,
                ),
            manager.wf(),
    {
        let mut dict: Vec<((i32, i32), MeshData)> = Vec::new();
        let mut x: i32 = xmin;
        while x <= xmax
            invariant
                xmin <= x <= xmax + 1,
                column_heights@.len() == WORLD_CHUNKS,
                forall|i: int| 0 <= i < WORLD_CHUNKS ==> (#[trigger] column_heights@[i])@.len() == CHUNK_AREA,
                dict@.len() == (x - xmin) * WORLD_DEPTH_CHUNKS as int,
                forall|i: int|
                    0 <= i < dict@.len() ==> (#[trigger] dict@[i]).0 == world_chunk_key(i)
                        && is_terrain(dict@[i].1.voxels@, column_heights@[i]@),
            decreases xmax + 1 - x,
        {
            let mut z: i32 = zmin;
            while z <= zmax
                invariant
                    xmin <= x <= xmax,
                    zmin <= z <= zmax + 1,
                    column_heights@.len() == WORLD_CHUNKS,
                    forall|i: int| 0 <= i < WORLD_CHUNKS ==> (#[trigger] column_heights@[i])@.len() == CHUNK_AREA,
                    dict@.len() == (x - xmin) * WORLD_DEPTH_CHUNKS as int + (z - zmin),
                    forall|i: int|
                        0 <= i < dict@.len() ==> (#[trigger] dict@[i]).0 == world_chunk_key(i)
                            && is_terrain(dict@[i].1.voxels@, column_heights@[i]@),
                decreases zmax + 1 - z,
            {
                proof {
                    lemma_world_chunk_key(x as int, z as int);
                }
                let i: usize = dict.len();
                let data = MeshData::generate_mesh_data(&column_heights[i]);
                dict.push(((x, z), data));
                z = z + 1;
            }
            x = x + 1;
        }
        proof {
            lemma_world_chunk_keys_distinct();
        }
        let manager = Self { chunk_data_dictionary: dict };
        manager
    }

    /// Moves every chunk into a chunk table keyed the same way.
    pub fn into_chunk_table(self) -> (table: ChunkTable)
        requires
            self.wf(),
        ensures
            forall|i: int|
                0 <= i < self.chunk_data_dictionary@.len() ==> {
                    let (key, data) = #[trigger] self.chunk_data_dictionary@[i];
                    stored_chunks(table).dom().contains(key) && stored_chunks(table)[key]
                        == data.voxels@
                },
            forall|key: (i32, i32)|
                #[trigger] stored_chunks(table).dom().contains(key) ==> exists|i: int|
                    0 <= i < self.chunk_data_dictionary@.len()
                        && self.chunk_data_dictionary@[i].0 == key,
    {
        let ghost all = self.chunk_data_dictionary@;
        let mut entries = self.chunk_data_dictionary;
        let mut table = new_chunk_table();
        while entries.len() > 0
            invariant
                entries@ == all.take(entries@.len() as int),
                entries@.len() <= all.len(),
                forall|i: int, j: int|
                    0 <= i < all.len() && 0 <= j < all.len() && i != j ==> #[trigger] all[i].0
                        != #[trigger] all[j].0,
                forall|i: int|
                    entries@.len() <= i < all.len() ==> {
                        let (key, data) = #[trigger] all[i];
                        stored_chunks(table).dom().contains(key) && stored_chunks(table)[key]
                            == data.voxels@
                    },
                forall|key: (i32, i32)|
                    #[trigger] stored_chunks(table).dom().contains(key) ==> exists|i: int|
                        entries@.len() <= i < all.len() && all[i].0 == key,
            decreases entries@.len(),
        {
            let ghost n = entries@.len() as int;
            let popped = entries.pop();
            match popped {
                Some((key, data)) => {
                    assert(all[n - 1] == (key, data));
                    let ghost before = stored_chunks(table);
                    chunk_table_insert(&mut table, key, Arc::new(data));
                    assert forall|i: int| n - 1 <= i < all.len() implies {
                        let (k, d) = #[trigger] all[i];
                        stored_chunks(table).dom().contains(k) && stored_chunks(table)[k]
                            == d.voxels@
                    } by {
                        if i != n - 1 {
                            assert(all[i].0 != all[n - 1].0);
                        }
                    }
                    assert forall|k: (i32, i32)|
                        #[trigger] stored_chunks(table).dom().contains(k) implies exists|i: int|
                            n - 1 <= i < all.len() && all[i].0 == k by {
                        if k != key {
                            assert(before.dom().contains(k));
                        }
                    }
                    assert(entries@ =~= all.take(n - 1));
                },
                None => {},
            }
        }
        table
    }
}

} // verus!
