use vstd::prelude::*;

verus! {

/// Edge length of a chunk, in voxels, along the horizontal axes.
pub const CHUNK_SIZE: i32 = 32;

/// Height of a chunk, in voxels. A chunk is a cube, so this equals `CHUNK_SIZE`.
pub const CHUNK_HEIGHT: i32 = 32;

/// Number of voxels in one chunk: `CHUNK_SIZE * CHUNK_SIZE * CHUNK_SIZE`.
pub const CHUNK_VOLUME: usize = 32768;

/// Number of voxel columns in one chunk: `CHUNK_SIZE * CHUNK_SIZE`.
pub const CHUNK_AREA: usize = 1024;

/// The voxels of one chunk, one byte per voxel (0 is air, anything else solid).
pub struct MeshData {
    pub voxels: [u8; CHUNK_VOLUME],
}

/// Position of voxel `(x, y, z)` in the flat voxel array: x varies fastest, then y, then z.
pub open spec fn voxel_index(x: int, y: int, z: int) -> int {
    x + y * CHUNK_SIZE + z * CHUNK_SIZE * CHUNK_SIZE
}

/// `(x, y, z)` lies inside a chunk.
pub open spec fn in_chunk(x: int, y: int, z: int) -> bool {
    &&& 0 <= x < CHUNK_SIZE
    &&& 0 <= y < CHUNK_HEIGHT
    &&& 0 <= z < CHUNK_SIZE
}

/// Every step of the index computation, done in `i32`, stays in range.
pub open spec fn index_fits_i32(x: int, y: int, z: int) -> bool {
    &&& i32::MIN <= y * CHUNK_SIZE <= i32::MAX
    &&& i32::MIN <= z * CHUNK_SIZE <= i32::MAX
    &&& i32::MIN <= z * CHUNK_SIZE * CHUNK_SIZE <= i32::MAX
    &&& i32::MIN <= x + y * CHUNK_SIZE <= i32::MAX
    &&& i32::MIN <= voxel_index(x, y, z) <= i32::MAX
}

/// Index of the column `(x, z)` in a chunk's list of column heights.
pub open spec fn column_index(x: int, z: int) -> int {
    x + z * CHUNK_SIZE
}

/// Terrain fill rule: a voxel is solid (1) when it lies at or below its column's height.
pub open spec fn terrain_voxel(heights: Seq<i32>, x: int, y: int, z: int) -> u8 {
    if y <= heights[column_index(x, z)] {
        1
    } else {
        0
    }
}

/// The chunk whose voxels follow the terrain fill rule for `heights`.
pub open spec fn is_terrain(voxels: Seq<u8>, heights: Seq<i32>) -> bool {
    &&& voxels.len() == CHUNK_VOLUME
    &&& forall|x: int, y: int, z: int|
        #![trigger voxel_index(x, y, z)]
        in_chunk(x, y, z) ==> voxels[voxel_index(x, y, z)] == terrain_voxel(heights, x, y, z)
}

/// x coordinate of the voxel stored at flat index `i`.
pub open spec fn index_x(i: int) -> int {
    i % CHUNK_SIZE as int
}

/// y coordinate of the voxel stored at flat index `i`.
pub open spec fn index_y(i: int) -> int {
    (i / CHUNK_SIZE as int) % CHUNK_SIZE as int
}

/// z coordinate of the voxel stored at flat index `i`.
pub open spec fn index_z(i: int) -> int {
    i / (CHUNK_SIZE * CHUNK_SIZE) as int
}

/// The voxel layout is a bijection between the chunk's cube and `0..CHUNK_VOLUME`:
/// every voxel gets an index in range, distinct voxels get distinct indices, and
/// every index in range names exactly the voxel recovered by division and remainder.
pub proof fn lemma_voxel_index_bijective()
    ensures
        forall|x: int, y: int, z: int|
            #![trigger voxel_index(x, y, z)]
            in_chunk(x, y, z) ==> 0 <= voxel_index(x, y, z) < CHUNK_VOLUME,
        forall|x1: int, y1: int, z1: int, x2: int, y2: int, z2: int|
            #![trigger voxel_index(x1, y1, z1), voxel_index(x2, y2, z2)]
            in_chunk(x1, y1, z1) && in_chunk(x2, y2, z2) && voxel_index(x1, y1, z1)
                == voxel_index(x2, y2, z2) ==> x1 == x2 && y1 == y2 && z1 == z2,
        forall|i: int|
            #![trigger index_x(i)]
            0 <= i < CHUNK_VOLUME ==> in_chunk(index_x(i), index_y(i), index_z(i))
                && voxel_index(index_x(i), index_y(i), index_z(i)) == i,
{
    assert forall|x1: int, y1: int, z1: int, x2: int, y2: int, z2: int|
        #![trigger voxel_index(x1, y1, z1), voxel_index(x2, y2, z2)]
        in_chunk(x1, y1, z1) && in_chunk(x2, y2, z2) && voxel_index(x1, y1, z1)
            == voxel_index(x2, y2, z2) implies x1 == x2 && y1 == y2 && z1 == z2 by {
        lemma_index_injective(x1, y1, z1, x2, y2, z2);
    }
    assert forall|i: int|
        #![trigger index_x(i)]
        0 <= i < CHUNK_VOLUME implies in_chunk(index_x(i), index_y(i), index_z(i))
            && voxel_index(index_x(i), index_y(i), index_z(i)) == i by {
        lemma_index_decompose(i);
    }
}

proof fn lemma_index_injective(x1: int, y1: int, z1: int, x2: int, y2: int, z2: int)
    by (nonlinear_arith)
    requires
        in_chunk(x1, y1, z1),
        in_chunk(x2, y2, z2),
        voxel_index(x1, y1, z1) == voxel_index(x2, y2, z2),
    ensures
        x1 == x2 && y1 == y2 && z1 == z2,
{
}

proof fn lemma_index_decompose(i: int)
    by (nonlinear_arith)
    requires
        0 <= i < CHUNK_VOLUME,
    ensures
        in_chunk(i % 32, (i / 32) % 32, i / 1024),
        voxel_index(i % 32, (i / 32) % 32, i / 1024) == i,
{
}

/// Terrain columns are filled from the bottom: in a chunk generated from column heights,
/// a solid voxel has only solid voxels below it in its column, and an air voxel only air
/// above it.
pub proof fn lemma_terrain_columns_filled_from_bottom(voxels: Seq<u8>, heights: Seq<i32>)
    requires
        is_terrain(voxels, heights),
    ensures
        forall|x: int, y1: int, y2: int, z: int|
            #![trigger voxels[voxel_index(x, y1, z)], voxels[voxel_index(x, y2, z)]]
            in_chunk(x, y1, z) && in_chunk(x, y2, z) && y1 <= y2 && voxels[voxel_index(x, y2, z)]
                != 0 ==> voxels[voxel_index(x, y1, z)] != 0,
{
}

/// In a chunk generated from column heights, each voxel is decided by its own column:
/// the voxel at `(x, y, z)`, stored at `x + y * CHUNK_SIZE + z * CHUNK_SIZE * CHUNK_SIZE`,
/// is solid (1) exactly when `y` is at most the height `heights[x + z * CHUNK_SIZE]` of
/// column `(x, z)`, and air (0) otherwise.
pub proof fn lemma_terrain_voxel_follows_its_column(
    voxels: Seq<u8>,
    heights: Seq<i32>,
    x: int,
    y: int,
    z: int,
)
    requires
        is_terrain(voxels, heights),
        0 <= x < CHUNK_SIZE,
        0 <= y < CHUNK_HEIGHT,
        0 <= z < CHUNK_SIZE,
    ensures
        voxels[x + y * CHUNK_SIZE + z * CHUNK_SIZE * CHUNK_SIZE] == (if y <= heights[x + z
            * CHUNK_SIZE] {
            1u8
        } else {
            0u8
        }),
{
    assert(voxels[voxel_index(x, y, z)] == terrain_voxel(heights, x, y, z));
}

impl MeshData {
    /// Builds the chunk whose voxels follow the terrain fill rule for the given
    /// column heights (`column_heights[x + z * CHUNK_SIZE]` is the height of column `(x, z)`).
    pub fn generate_mesh_data(column_heights: &Vec<i32>) -> (meshdata: MeshData)
        requires
            column_heights.len() == CHUNK_AREA,
        ensures
            is_terrain(meshdata.voxels@, column_heights@),
    {
        let voxels: [u8; CHUNK_VOLUME] = Self::generate_terrain(column_heights);
        let meshdata = Self { voxels };
        meshdata
    }

    /// Flat index of voxel `(x, y, z)`, computed in `i32` and converted to `usize`.
    pub fn get_index(x: i32, y: i32, z: i32) -> (index: usize)
        requires
            index_fits_i32(x as int, y as int, z as int),
        ensures
            index == voxel_index(x as int, y as int, z as int) as usize,
            in_chunk(x as int, y as int, z as int) ==> index < CHUNK_VOLUME && index as int
                == voxel_index(x as int, y as int, z as int),
    {
        (x + y * CHUNK_SIZE + z * CHUNK_SIZE * CHUNK_SIZE) as usize
    }

    fn generate_terrain(column_heights: &Vec<i32>) -> (voxels: [u8; CHUNK_VOLUME])
        requires
            column_heights.len() == CHUNK_AREA,
        ensures
            is_terrain(voxels@, column_heights@),
    {
        let mut voxels = [0u8; 32768];
        proof {
            lemma_voxel_index_bijective();
        }
        let mut z: i32 = 0;
        while z < CHUNK_SIZE
            invariant
                0 <= z <= CHUNK_SIZE,
                column_heights.len() == CHUNK_AREA,
                voxels@.len() == CHUNK_VOLUME,
                forall|xx: int, yy: int, zz: int|
                    #![trigger voxel_index(xx, yy, zz)]
                    in_chunk(xx, yy, zz) && zz < z ==> voxels@[voxel_index(xx, yy, zz)]
                        == terrain_voxel(column_heights@, xx, yy, zz),
            decreases CHUNK_SIZE - z,
        {
            let mut x: i32 = 0;
            while x < CHUNK_SIZE
                invariant
                    0 <= z < CHUNK_SIZE,
                    0 <= x <= CHUNK_SIZE,
                    column_heights.len() == CHUNK_AREA,
                    voxels@.len() == CHUNK_VOLUME,
                    forall|xx: int, yy: int, zz: int|
                        #![trigger voxel_index(xx, yy, zz)]
                        in_chunk(xx, yy, zz) && (zz < z || (zz == z && xx < x))
                            ==> voxels@[voxel_index(xx, yy, zz)] == terrain_voxel(
                            column_heights@,
                            xx,
                            yy,
                            zz,
                        ),
                decreases CHUNK_SIZE - x,
            {
                let terrain_height = column_heights[(x + z * CHUNK_SIZE) as usize];
                let mut y: i32 = 0;
                while y < CHUNK_SIZE
                    invariant
                        0 <= z < CHUNK_SIZE,
                        0 <= x < CHUNK_SIZE,
                        0 <= y <= CHUNK_SIZE,
                        column_heights.len() == CHUNK_AREA,
                        terrain_height == column_heights@[column_index(x as int, z as int)],
                        voxels@.len() == CHUNK_VOLUME,
                        forall|xx: int, yy: int, zz: int|
                            #![trigger voxel_index(xx, yy, zz)]
                            in_chunk(xx, yy, zz) && (zz < z || (zz == z && xx < x) || (zz == z
                                && xx == x && yy < y)) ==> voxels@[voxel_index(xx, yy, zz)]
                                == terrain_voxel(column_heights@, xx, yy, zz),
                    decreases CHUNK_SIZE - y,
                {
                    let index = Self::get_index(x, y, z);
                    proof {
                        lemma_voxel_index_bijective();
                    }
                    if y <= terrain_height {
                        voxels[index] = 1;
                    } else {
                        voxels[index] = 0;
                    }
                    y = y + 1;
                }
                x = x + 1;
            }
            z = z + 1;
        }
        voxels
    }
}

} // verus!
