use vstd::prelude::*;
use crate::chunk_table::{ChunkTable, stored_chunks, chunk_table_get, chunk_table_contains};
use crate::mesh_data::{
    MeshData, CHUNK_SIZE, CHUNK_VOLUME, CHUNK_HEIGHT, voxel_index, in_chunk,
    lemma_voxel_index_bijective,
};

verus! {

/// One corner of a block face, on the integer voxel grid.
///
/// `position` is the corner in world coordinates; `tex_coords` is the corner of
/// the texture it shows (each component 0 or 1); `block_type` is the voxel
/// value of the block; `light` is the face's brightness in percent.
#[derive(Clone, Copy, Debug, PartialEq, Eq)]
pub struct Vertex {
    pub position: (i64, i64, i64),
    pub tex_coords: (u32, u32),
    pub block_type: u32,
    pub light: u32,
}

/// The GPU-side data of a chunk's mesh that the rest of the program reads:
/// how many indices to draw, and which chunk it belongs to.
pub struct ChunkMesh {
    pub num_indices: u32,
    pub chunk_x: i32,
    pub chunk_z: i32,
}

/// Brightness of each face in percent: sides 70, top 100, bottom 40, +Z 85, -Z 50.
pub open spec fn face_light(face: int) -> u32 {
    if face == 0 {
        70
    } else if face == 1 {
        70
    } else if face == 2 {
        100
    } else if face == 3 {
        40
    } else if face == 4 {
        85
    } else {
        50
    }
}

/// The grid step towards the neighbour that face `face` looks at:
/// +X, -X, +Y, -Y, +Z, -Z for faces 0 to 5.
pub open spec fn face_direction(face: int) -> (int, int, int) {
    if face == 0 {
        (1, 0, 0)
    } else if face == 1 {
        (-1, 0, 0)
    } else if face == 2 {
        (0, 1, 0)
    } else if face == 3 {
        (0, -1, 0)
    } else if face == 4 {
        (0, 0, 1)
    } else {
        (0, 0, -1)
    }
}

/// A corner vertex at `(px, py, pz)` with texture corner `(u, v)`.
pub open spec fn corner(px: int, py: int, pz: int, u: u32, v: u32, block_type: u32, light: u32) -> Vertex {
    Vertex { position: (px as i64, py as i64, pz as i64), tex_coords: (u, v), block_type, light }
}

/// The four corners of face `face` of the block whose lowest corner is `(x, y, z)`,
/// in the order bottom-right, bottom-left, top-left, top-right as seen from outside.
pub open spec fn face_quad(face: int, x: int, y: int, z: int, block_type: u32) -> Seq<Vertex> {
    let l = face_light(face);
    let (x1, y1, z1) = (x + 1, y + 1, z + 1);
    if face == 0 {
        seq![
            corner(x1, y, z1, 1, 1, block_type, l),
            corner(x1, y, z, 0, 1, block_type, l),
            corner(x1, y1, z, 0, 0, block_type, l),
            corner(x1, y1, z1, 1, 0, block_type, l),
        ]
    } else if face == 1 {
        seq![
            corner(x, y, z, 1, 1, block_type, l),
            corner(x, y, z1, 0, 1, block_type, l),
            corner(x, y1, z1, 0, 0, block_type, l),
            corner(x, y1, z, 1, 0, block_type, l),
        ]
    } else if face == 2 {
        seq![
            corner(x1, y1, z, 1, 1, block_type, l),
            corner(x, y1, z, 0, 1, block_type, l),
            corner(x, y1, z1, 0, 0, block_type, l),
            corner(x1, y1, z1, 1, 0, block_type, l),
        ]
    } else if face == 3 {
        seq![
            corner(x1, y, z1, 1, 1, block_type, l),
            corner(x, y, z1, 0, 1, block_type, l),
            corner(x, y, z, 0, 0, block_type, l),
            corner(x1, y, z, 1, 0, block_type, l),
        ]
    } else if face == 4 {
        seq![
            corner(x, y, z1, 1, 1, block_type, l),
            corner(x1, y, z1, 0, 1, block_type, l),
            corner(x1, y1, z1, 0, 0, block_type, l),
            corner(x, y1, z1, 1, 0, block_type, l),
        ]
    } else {
        seq![
            corner(x1, y, z, 1, 1, block_type, l),
            corner(x, y, z, 0, 1, block_type, l),
            corner(x, y1, z, 0, 0, block_type, l),
            corner(x1, y1, z, 1, 0, block_type, l),
        ]
    }
}

/// Which chunk holds the column `(x, z)` given relative to chunk `(chunk_x, chunk_z)`,
/// and where in that chunk: `(owner_x, owner_z, local_x, local_z)`. A column just off
/// one side of the chunk belongs to the neighbour on that side; x is looked at first.
pub open spec fn column_owner(x: int, z: int, chunk_x: int, chunk_z: int) -> (int, int, int, int) {
    if x < 0 {
        (chunk_x - 1, chunk_z, CHUNK_SIZE - 1, z)
    } else if x >= CHUNK_SIZE {
        (chunk_x + 1, chunk_z, 0, z)
    } else if z < 0 {
        (chunk_x, chunk_z - 1, x, CHUNK_SIZE - 1)
    } else if z >= CHUNK_SIZE {
        (chunk_x, chunk_z + 1, x, 0)
    } else {
        (chunk_x, chunk_z, x, z)
    }
}

/// The key of the chunk that holds column `(x, z)`.
pub open spec fn owner_key(x: int, z: int, chunk_x: int, chunk_z: int) -> (i32, i32) {
    let (ox, oz, lx, lz) = column_owner(x, z, chunk_x, chunk_z);
    (ox as i32, oz as i32)
}

/// The voxel at `(x, y, z)` relative to chunk `(chunk_x, chunk_z)`: solid (1) below the
/// world, air (0) above it, otherwise the stored voxel of the owning chunk, or solid (1)
/// when that chunk is not stored.
pub open spec fn voxel_value(
    chunks: Map<(i32, i32), Seq<u8>>,
    x: int,
    y: int,
    z: int,
    chunk_x: int,
    chunk_z: int,
) -> u8 {
    if y < 0 {
        1
    } else if y >= CHUNK_HEIGHT {
        0
    } else {
        let (ox, oz, lx, lz) = column_owner(x, z, chunk_x, chunk_z);
        let key = owner_key(x, z, chunk_x, chunk_z);
        if chunks.dom().contains(key) {
            chunks[key][voxel_index(lx, y, lz)]
        } else {
            1
        }
    }
}

/// The inputs on which looking up a voxel neither overflows nor indexes out of bounds:
/// the neighbour's coordinate is representable, and when the neighbour is stored the
/// local position lies inside it.
pub open spec fn voxel_lookup_defined(
    chunks: Map<(i32, i32), Seq<u8>>,
    x: int,
    y: int,
    z: int,
    chunk_x: int,
    chunk_z: int,
) -> bool {
    0 <= y < CHUNK_HEIGHT ==> {
        let (ox, oz, lx, lz) = column_owner(x, z, chunk_x, chunk_z);
        &&& i32::MIN <= ox <= i32::MAX
        &&& i32::MIN <= oz <= i32::MAX
        &&& chunks.dom().contains(owner_key(x, z, chunk_x, chunk_z)) ==> 0 <= lz < CHUNK_SIZE
    }
}

/// Face `face` of the voxel at `(x, y, z)` (relative to chunk `(chunk_x, chunk_z)`) is
/// drawn: the voxel is solid and its neighbour in the face's direction is air.
pub open spec fn face_shown(
    chunks: Map<(i32, i32), Seq<u8>>,
    chunk_x: int,
    chunk_z: int,
    x: int,
    y: int,
    z: int,
    face: int,
) -> bool {
    let (dx, dy, dz) = face_direction(face);
    &&& voxel_value(chunks, x, y, z, chunk_x, chunk_z) != 0
    &&& voxel_value(chunks, x + dx, y + dy, z + dz, chunk_x, chunk_z) == 0
}

/// The corners emitted for the voxel at local `(x, y, z)`, over its first `n` faces in
/// face order: four corners for each drawn face, placed at world coordinates.
pub open spec fn cell_vertices(
    chunks: Map<(i32, i32), Seq<u8>>,
    chunk_x: int,
    chunk_z: int,
    x: int,
    y: int,
    z: int,
    n: nat,
) -> Seq<Vertex>
    decreases n,
{
    if n == 0 {
        seq![]
    } else {
        let face = n - 1;
        let prev = cell_vertices(chunks, chunk_x, chunk_z, x, y, z, (n - 1) as nat);
        if face_shown(chunks, chunk_x, chunk_z, x, y, z, face) {
            prev + face_quad(
                face,
                x + chunk_x * CHUNK_SIZE,
                y,
                z + chunk_z * CHUNK_SIZE,
                voxel_value(chunks, x, y, z, chunk_x, chunk_z) as u32,
            )
        } else {
            prev
        }
    }
}

/// The corners emitted for the first `n` voxels (by x) of row `(y, z)`.
pub open spec fn row_vertices(
    chunks: Map<(i32, i32), Seq<u8>>,
    chunk_x: int,
    chunk_z: int,
    y: int,
    z: int,
    n: nat,
) -> Seq<Vertex>
    decreases n,
{
    if n == 0 {
        seq![]
    } else {
        row_vertices(chunks, chunk_x, chunk_z, y, z, (n - 1) as nat) + cell_vertices(
            chunks,
            chunk_x,
            chunk_z,
            n - 1,
            y,
            z,
            6,
        )
    }
}

/// The corners emitted for the first `n` rows (by y) of layer `z`.
pub open spec fn layer_vertices(
    chunks: Map<(i32, i32), Seq<u8>>,
    chunk_x: int,
    chunk_z: int,
    z: int,
    n: nat,
) -> Seq<Vertex>
    decreases n,
{
    if n == 0 {
        seq![]
    } else {
        layer_vertices(chunks, chunk_x, chunk_z, z, (n - 1) as nat) + row_vertices(
            chunks,
            chunk_x,
            chunk_z,
            n - 1,
            z,
            CHUNK_SIZE as nat,
        )
    }
}

/// The corners emitted for the first `n` layers (by z) of the chunk.
pub open spec fn chunk_vertices(
    chunks: Map<(i32, i32), Seq<u8>>,
    chunk_x: int,
    chunk_z: int,
    n: nat,
) -> Seq<Vertex>
    decreases n,
{
    if n == 0 {
        seq![]
    } else {
        chunk_vertices(chunks, chunk_x, chunk_z, (n - 1) as nat) + layer_vertices(
            chunks,
            chunk_x,
            chunk_z,
            n - 1,
            CHUNK_HEIGHT as nat,
        )
    }
}

/// The mesh of chunk `(chunk_x, chunk_z)`: nothing when the chunk is not stored, else the
/// corners of every drawn face, voxel by voxel with x fastest, then y, then z.
pub open spec fn mesh_vertices(chunks: Map<(i32, i32), Seq<u8>>, chunk_x: int, chunk_z: int) -> Seq<
    Vertex,
> {
    if chunks.dom().contains((chunk_x as i32, chunk_z as i32)) {
        chunk_vertices(chunks, chunk_x, chunk_z, CHUNK_SIZE as nat)
    } else {
        seq![]
    }
}

/// Index list for `quads` quads: quad `i` (corners `4i..4i+4`) is drawn as the two
/// triangles `4i, 4i+1, 4i+2` and `4i+2, 4i+3, 4i`.
pub open spec fn quad_indices(quads: nat) -> Seq<u32>
    decreases quads,
{
    if quads == 0 {
        seq![]
    } else {
        let b = 4 * (quads - 1);
        quad_indices((quads - 1) as nat) + seq![
            b as u32,
            (b + 1) as u32,
            (b + 2) as u32,
            (b + 2) as u32,
            (b + 3) as u32,
            b as u32,
        ]
    }
}

/// Every world coordinate of the chunk's voxels along one axis fits in an `i32`.
pub open spec fn chunk_world_fits(chunk: int) -> bool {
    i32::MIN <= chunk * CHUNK_SIZE && chunk * CHUNK_SIZE + CHUNK_SIZE - 1 <= i32::MAX
}

/// The arithmetic done for face `face` of the solid voxel at local `(x, y, z)` stays in
/// range: looking up the neighbour in the face's direction, and, when the face is drawn,
/// computing the voxel's world coordinates.
pub open spec fn face_arithmetic_fits(
    chunks: Map<(i32, i32), Seq<u8>>,
    chunk_x: int,
    chunk_z: int,
    x: int,
    y: int,
    z: int,
    face: int,
) -> bool {
    let (dx, dy, dz) = face_direction(face);
    &&& voxel_lookup_defined(chunks, x + dx, y + dy, z + dz, chunk_x, chunk_z)
    &&& face_shown(chunks, chunk_x, chunk_z, x, y, z, face) ==> {
        &&& i32::MIN <= chunk_x * CHUNK_SIZE <= i32::MAX
        &&& i32::MIN <= x + chunk_x * CHUNK_SIZE <= i32::MAX
        &&& i32::MIN <= chunk_z * CHUNK_SIZE <= i32::MAX
        &&& i32::MIN <= z + chunk_z * CHUNK_SIZE <= i32::MAX
    }
}

/// The inputs on which building the mesh of chunk `(chunk_x, chunk_z)` does no overflowing
/// arithmetic: nothing is computed for a chunk that is not stored, and for a stored one
/// the only arithmetic is that of `face_arithmetic_fits` at each face of each solid voxel.
pub open spec fn mesh_arithmetic_fits(
    chunks: Map<(i32, i32), Seq<u8>>,
    chunk_x: int,
    chunk_z: int,
) -> bool {
    chunks.dom().contains((chunk_x as i32, chunk_z as i32)) ==> forall|
        x: int,
        y: int,
        z: int,
        face: int,
    |
        in_chunk(x, y, z) && 0 <= face < 6 && voxel_value(chunks, x, y, z, chunk_x, chunk_z) != 0
            ==> #[trigger] face_arithmetic_fits(chunks, chunk_x, chunk_z, x, y, z, face)
}

/// When the chunk's world coordinates fit in an `i32` along both axes, building its mesh
/// does no overflowing arithmetic.
pub proof fn lemma_world_fits_mesh_arithmetic(
    chunks: Map<(i32, i32), Seq<u8>>,
    chunk_x: int,
    chunk_z: int,
)
    requires
        chunk_world_fits(chunk_x),
        chunk_world_fits(chunk_z),
    ensures
        mesh_arithmetic_fits(chunks, chunk_x, chunk_z),
{
}

/// The grid step towards the neighbour that face `face_index` looks at.
fn direction(face_index: usize) -> (step: (i32, i32, i32))
    requires
        face_index < 6,
    ensures
        step.0 as int == face_direction(face_index as int).0,
        step.1 as int == face_direction(face_index as int).1,
        step.2 as int == face_direction(face_index as int).2,
{
    match face_index {
        0 => (1, 0, 0),
        1 => (-1, 0, 0),
        2 => (0, 1, 0),
        3 => (0, -1, 0),
        4 => (0, 0, 1),
        _ => (0, 0, -1),
    }
}

/// A voxel that is air draws none of its faces.
proof fn lemma_air_cell_has_no_faces(
    chunks: Map<(i32, i32), Seq<u8>>,
    chunk_x: int,
    chunk_z: int,
    x: int,
    y: int,
    z: int,
    n: nat,
)
    requires
        voxel_value(chunks, x, y, z, chunk_x, chunk_z) == 0,
    ensures
        cell_vertices(chunks, chunk_x, chunk_z, x, y, z, n) == Seq::<Vertex>::empty(),
    decreases n,
{
    if n > 0 {
        lemma_air_cell_has_no_faces(chunks, chunk_x, chunk_z, x, y, z, (n - 1) as nat);
    }
}

/// The keys of chunk `(chunk_x, chunk_z)` and of its four horizontal neighbours, in the
/// order +0, +X, -X, +Z, -Z.
pub open spec fn neighbourhood_keys(chunk_x: int, chunk_z: int) -> Seq<(i32, i32)> {
    seq![
        (chunk_x as i32, chunk_z as i32),
        ((chunk_x + 1) as i32, chunk_z as i32),
        ((chunk_x - 1) as i32, chunk_z as i32),
        (chunk_x as i32, (chunk_z + 1) as i32),
        (chunk_x as i32, (chunk_z - 1) as i32),
    ]
}

/// Two chunk maps hold the same entry (or the same absence) for `key`.
pub open spec fn same_entry(
    a: Map<(i32, i32), Seq<u8>>,
    b: Map<(i32, i32), Seq<u8>>,
    key: (i32, i32),
) -> bool {
    &&& a.dom().contains(key) == b.dom().contains(key)
    &&& a.dom().contains(key) ==> a[key] == b[key]
}

/// Two chunk maps agree on a chunk and its four horizontal neighbours.
pub open spec fn agree_on_neighbourhood(
    a: Map<(i32, i32), Seq<u8>>,
    b: Map<(i32, i32), Seq<u8>>,
    chunk_x: int,
    chunk_z: int,
) -> bool {
    forall|i: int| 0 <= i < 5 ==> #[trigger] same_entry(a, b, neighbourhood_keys(chunk_x, chunk_z)[i])
}

proof fn lemma_voxel_value_in_neighbourhood(
    a: Map<(i32, i32), Seq<u8>>,
    b: Map<(i32, i32), Seq<u8>>,
    chunk_x: int,
    chunk_z: int,
    x: int,
    y: int,
    z: int,
)
    requires
        agree_on_neighbourhood(a, b, chunk_x, chunk_z),
        -1 <= x <= CHUNK_SIZE,
        -1 <= z <= CHUNK_SIZE,
        0 <= x < CHUNK_SIZE || 0 <= z < CHUNK_SIZE,
    ensures
        voxel_value(a, x, y, z, chunk_x, chunk_z) == voxel_value(b, x, y, z, chunk_x, chunk_z),
{
    let keys = neighbourhood_keys(chunk_x, chunk_z);
    assert(same_entry(a, b, keys[0]));
    assert(same_entry(a, b, keys[1]));
    assert(same_entry(a, b, keys[2]));
    assert(same_entry(a, b, keys[3]));
    assert(same_entry(a, b, keys[4]));
}

proof fn lemma_cell_in_neighbourhood(
    a: Map<(i32, i32), Seq<u8>>,
    b: Map<(i32, i32), Seq<u8>>,
    chunk_x: int,
    chunk_z: int,
    x: int,
    y: int,
    z: int,
    n: nat,
)
    requires
        agree_on_neighbourhood(a, b, chunk_x, chunk_z),
        in_chunk(x, y, z),
        n <= 6,
    ensures
        cell_vertices(a, chunk_x, chunk_z, x, y, z, n) == cell_vertices(b, chunk_x, chunk_z, x, y, z, n),
    decreases n,
{
    if n > 0 {
        lemma_cell_in_neighbourhood(a, b, chunk_x, chunk_z, x, y, z, (n - 1) as nat);
        let (dx, dy, dz) = face_direction(n - 1);
        lemma_voxel_value_in_neighbourhood(a, b, chunk_x, chunk_z, x, y, z);
        lemma_voxel_value_in_neighbourhood(a, b, chunk_x, chunk_z, x + dx, y + dy, z + dz);
    }
}

proof fn lemma_row_in_neighbourhood(
    a: Map<(i32, i32), Seq<u8>>,
    b: Map<(i32, i32), Seq<u8>>,
    chunk_x: int,
    chunk_z: int,
    y: int,
    z: int,
    n: nat,
)
    requires
        agree_on_neighbourhood(a, b, chunk_x, chunk_z),
        0 <= y < CHUNK_HEIGHT,
        0 <= z < CHUNK_SIZE,
        n <= CHUNK_SIZE,
    ensures
        row_vertices(a, chunk_x, chunk_z, y, z, n) == row_vertices(b, chunk_x, chunk_z, y, z, n),
    decreases n,
{
    if n > 0 {
        lemma_row_in_neighbourhood(a, b, chunk_x, chunk_z, y, z, (n - 1) as nat);
        lemma_cell_in_neighbourhood(a, b, chunk_x, chunk_z, n - 1, y, z, 6);
    }
}

proof fn lemma_layer_in_neighbourhood(
    a: Map<(i32, i32), Seq<u8>>,
    b: Map<(i32, i32), Seq<u8>>,
    chunk_x: int,
    chunk_z: int,
    z: int,
    n: nat,
)
    requires
        agree_on_neighbourhood(a, b, chunk_x, chunk_z),
        0 <= z < CHUNK_SIZE,
        n <= CHUNK_HEIGHT,
    ensures
        layer_vertices(a, chunk_x, chunk_z, z, n) == layer_vertices(b, chunk_x, chunk_z, z, n),
    decreases n,
{
    if n > 0 {
        lemma_layer_in_neighbourhood(a, b, chunk_x, chunk_z, z, (n - 1) as nat);
        lemma_row_in_neighbourhood(a, b, chunk_x, chunk_z, n - 1, z, CHUNK_SIZE as nat);
    }
}

proof fn lemma_chunk_in_neighbourhood(
    a: Map<(i32, i32), Seq<u8>>,
    b: Map<(i32, i32), Seq<u8>>,
    chunk_x: int,
    chunk_z: int,
    n: nat,
)
    requires
        agree_on_neighbourhood(a, b, chunk_x, chunk_z),
        n <= CHUNK_SIZE,
    ensures
        chunk_vertices(a, chunk_x, chunk_z, n) == chunk_vertices(b, chunk_x, chunk_z, n),
    decreases n,
{
    if n > 0 {
        lemma_chunk_in_neighbourhood(a, b, chunk_x, chunk_z, (n - 1) as nat);
        lemma_layer_in_neighbourhood(a, b, chunk_x, chunk_z, n - 1, CHUNK_HEIGHT as nat);
    }
}

/// The mesh of a chunk depends only on the chunk itself and its four horizontal
/// neighbours: two chunk maps that agree on those five entries give the same mesh.
pub proof fn lemma_mesh_depends_on_neighbourhood(
    a: Map<(i32, i32), Seq<u8>>,
    b: Map<(i32, i32), Seq<u8>>,
    chunk_x: int,
    chunk_z: int,
)
    requires
        agree_on_neighbourhood(a, b, chunk_x, chunk_z),
    ensures
        mesh_vertices(a, chunk_x, chunk_z) == mesh_vertices(b, chunk_x, chunk_z),
{
    assert(same_entry(a, b, neighbourhood_keys(chunk_x, chunk_z)[0]));
    lemma_chunk_in_neighbourhood(a, b, chunk_x, chunk_z, CHUNK_SIZE as nat);
}

/// `v` moved by `dx` along x and `dz` along z.
pub open spec fn translate_vertex(v: Vertex, dx: int, dz: int) -> Vertex {
    Vertex {
        position: ((v.position.0 + dx) as i64, v.position.1, (v.position.2 + dz) as i64),
        tex_coords: v.tex_coords,
        block_type: v.block_type,
        light: v.light,
    }
}

/// Every vertex of `s` moved by `dx` along x and `dz` along z.
pub open spec fn translate_mesh(s: Seq<Vertex>, dx: int, dz: int) -> Seq<Vertex> {
    s.map_values(|v: Vertex| translate_vertex(v, dx, dz))
}

/// Chunk `ka` of map `a` and chunk `kb` of map `b` are both absent, or both present with
/// the same voxels.
pub open spec fn same_entry_between(
    a: Map<(i32, i32), Seq<u8>>,
    ka: (i32, i32),
    b: Map<(i32, i32), Seq<u8>>,
    kb: (i32, i32),
) -> bool {
    &&& a.dom().contains(ka) == b.dom().contains(kb)
    &&& a.dom().contains(ka) ==> a[ka] == b[kb]
}

/// The neighbourhood of chunk `(chunk_x, chunk_z)` in `a` equals, chunk by chunk, the
/// neighbourhood of chunk `(chunk_x2, chunk_z2)` in `b`.
pub open spec fn agree_translated(
    a: Map<(i32, i32), Seq<u8>>,
    chunk_x: int,
    chunk_z: int,
    b: Map<(i32, i32), Seq<u8>>,
    chunk_x2: int,
    chunk_z2: int,
) -> bool {
    forall|i: int|
        0 <= i < 5 ==> #[trigger] same_entry_between(
            a,
            neighbourhood_keys(chunk_x, chunk_z)[i],
            b,
            neighbourhood_keys(chunk_x2, chunk_z2)[i],
        )
}

proof fn lemma_voxel_value_translated(
    a: Map<(i32, i32), Seq<u8>>,
    chunk_x: int,
    chunk_z: int,
    b: Map<(i32, i32), Seq<u8>>,
    chunk_x2: int,
    chunk_z2: int,
    x: int,
    y: int,
    z: int,
)
    requires
        agree_translated(a, chunk_x, chunk_z, b, chunk_x2, chunk_z2),
        -1 <= x <= CHUNK_SIZE,
        -1 <= z <= CHUNK_SIZE,
        0 <= x < CHUNK_SIZE || 0 <= z < CHUNK_SIZE,
    ensures
        voxel_value(a, x, y, z, chunk_x, chunk_z) == voxel_value(b, x, y, z, chunk_x2, chunk_z2),
{
    let ka = neighbourhood_keys(chunk_x, chunk_z);
    let kb = neighbourhood_keys(chunk_x2, chunk_z2);
    assert(same_entry_between(a, ka[0], b, kb[0]));
    assert(same_entry_between(a, ka[1], b, kb[1]));
    assert(same_entry_between(a, ka[2], b, kb[2]));
    assert(same_entry_between(a, ka[3], b, kb[3]));
    assert(same_entry_between(a, ka[4], b, kb[4]));
}

proof fn lemma_translate_concat(s1: Seq<Vertex>, s2: Seq<Vertex>, dx: int, dz: int)
    ensures
        translate_mesh(s1 + s2, dx, dz) == translate_mesh(s1, dx, dz) + translate_mesh(s2, dx, dz),
        translate_mesh(Seq::<Vertex>::empty(), dx, dz) == Seq::<Vertex>::empty(),
{
    assert(translate_mesh(s1 + s2, dx, dz) =~= translate_mesh(s1, dx, dz) + translate_mesh(
        s2,
        dx,
        dz,
    ));
    assert(translate_mesh(Seq::<Vertex>::empty(), dx, dz) =~= Seq::<Vertex>::empty());
}

/// A coordinate well inside the range of `i64`.
spec fn small(v: int) -> bool {
    -0x1000_0000_0000 <= v <= 0x1000_0000_0000
}

proof fn lemma_face_quad_translated(face: int, x: int, y: int, z: int, block_type: u32, dx: int, dz: int)
    requires
        0 <= face < 6,
        small(x),
        small(y),
        small(z),
        small(x + dx),
        small(z + dz),
    ensures
        face_quad(face, x + dx, y, z + dz, block_type) == translate_mesh(
            face_quad(face, x, y, z, block_type),
            dx,
            dz,
        ),
{
    let q = face_quad(face, x, y, z, block_type);
    let t = face_quad(face, x + dx, y, z + dz, block_type);
    assert(t =~= translate_mesh(q, dx, dz));
}

proof fn lemma_cell_translated(
    a: Map<(i32, i32), Seq<u8>>,
    chunk_x: int,
    chunk_z: int,
    b: Map<(i32, i32), Seq<u8>>,
    chunk_x2: int,
    chunk_z2: int,
    x: int,
    y: int,
    z: int,
    n: nat,
)
    requires
        agree_translated(a, chunk_x, chunk_z, b, chunk_x2, chunk_z2),
        chunk_world_fits(chunk_x),
        chunk_world_fits(chunk_z),
        chunk_world_fits(chunk_x2),
        chunk_world_fits(chunk_z2),
        in_chunk(x, y, z),
        n <= 6,
    ensures
        cell_vertices(b, chunk_x2, chunk_z2, x, y, z, n) == translate_mesh(
            cell_vertices(a, chunk_x, chunk_z, x, y, z, n),
            (chunk_x2 - chunk_x) * CHUNK_SIZE,
            (chunk_z2 - chunk_z) * CHUNK_SIZE,
        ),
    decreases n,
{
    let dx = (chunk_x2 - chunk_x) * CHUNK_SIZE;
    let dz = (chunk_z2 - chunk_z) * CHUNK_SIZE;
    if n == 0 {
        lemma_translate_concat(Seq::<Vertex>::empty(), Seq::<Vertex>::empty(), dx, dz);
    } else {
        let f = n - 1;
        lemma_cell_translated(a, chunk_x, chunk_z, b, chunk_x2, chunk_z2, x, y, z, (n - 1) as nat);
        let (ox, oy, oz) = face_direction(f);
        lemma_voxel_value_translated(a, chunk_x, chunk_z, b, chunk_x2, chunk_z2, x, y, z);
        lemma_voxel_value_translated(
            a,
            chunk_x,
            chunk_z,
            b,
            chunk_x2,
            chunk_z2,
            x + ox,
            y + oy,
            z + oz,
        );
        let prev_a = cell_vertices(a, chunk_x, chunk_z, x, y, z, (n - 1) as nat);
        let bt = voxel_value(a, x, y, z, chunk_x, chunk_z) as u32;
        let wx = x + chunk_x * CHUNK_SIZE;
        let wz = z + chunk_z * CHUNK_SIZE;
        assert(x + chunk_x2 * CHUNK_SIZE == wx + dx);
        assert(z + chunk_z2 * CHUNK_SIZE == wz + dz);
        lemma_face_quad_translated(f, wx, y, wz, bt, dx, dz);
        lemma_translate_concat(prev_a, face_quad(f, wx, y, wz, bt), dx, dz);
    }
}

proof fn lemma_row_translated(
    a: Map<(i32, i32), Seq<u8>>,
    chunk_x: int,
    chunk_z: int,
    b: Map<(i32, i32), Seq<u8>>,
    chunk_x2: int,
    chunk_z2: int,
    y: int,
    z: int,
    n: nat,
)
    requires
        agree_translated(a, chunk_x, chunk_z, b, chunk_x2, chunk_z2),
        chunk_world_fits(chunk_x),
        chunk_world_fits(chunk_z),
        chunk_world_fits(chunk_x2),
        chunk_world_fits(chunk_z2),
        0 <= y < CHUNK_HEIGHT,
        0 <= z < CHUNK_SIZE,
        n <= CHUNK_SIZE,
    ensures
        row_vertices(b, chunk_x2, chunk_z2, y, z, n) == translate_mesh(
            row_vertices(a, chunk_x, chunk_z, y, z, n),
            (chunk_x2 - chunk_x) * CHUNK_SIZE,
            (chunk_z2 - chunk_z) * CHUNK_SIZE,
        ),
    decreases n,
{
    let dx = (chunk_x2 - chunk_x) * CHUNK_SIZE;
    let dz = (chunk_z2 - chunk_z) * CHUNK_SIZE;
    if n == 0 {
        lemma_translate_concat(Seq::<Vertex>::empty(), Seq::<Vertex>::empty(), dx, dz);
    } else {
        lemma_row_translated(a, chunk_x, chunk_z, b, chunk_x2, chunk_z2, y, z, (n - 1) as nat);
        lemma_cell_translated(a, chunk_x, chunk_z, b, chunk_x2, chunk_z2, n - 1, y, z, 6);
        lemma_translate_concat(
            row_vertices(a, chunk_x, chunk_z, y, z, (n - 1) as nat),
            cell_vertices(a, chunk_x, chunk_z, n - 1, y, z, 6),
            dx,
            dz,
        );
    }
}

proof fn lemma_layer_translated(
    a: Map<(i32, i32), Seq<u8>>,
    chunk_x: int,
    chunk_z: int,
    b: Map<(i32, i32), Seq<u8>>,
    chunk_x2: int,
    chunk_z2: int,
    z: int,
    n: nat,
)
    requires
        agree_translated(a, chunk_x, chunk_z, b, chunk_x2, chunk_z2),
        chunk_world_fits(chunk_x),
        chunk_world_fits(chunk_z),
        chunk_world_fits(chunk_x2),
        chunk_world_fits(chunk_z2),
        0 <= z < CHUNK_SIZE,
        n <= CHUNK_HEIGHT,
    ensures
        layer_vertices(b, chunk_x2, chunk_z2, z, n) == translate_mesh(
            layer_vertices(a, chunk_x, chunk_z, z, n),
            (chunk_x2 - chunk_x) * CHUNK_SIZE,
            (chunk_z2 - chunk_z) * CHUNK_SIZE,
        ),
    decreases n,
{
    let dx = (chunk_x2 - chunk_x) * CHUNK_SIZE;
    let dz = (chunk_z2 - chunk_z) * CHUNK_SIZE;
    if n == 0 {
        lemma_translate_concat(Seq::<Vertex>::empty(), Seq::<Vertex>::empty(), dx, dz);
    } else {
        lemma_layer_translated(a, chunk_x, chunk_z, b, chunk_x2, chunk_z2, z, (n - 1) as nat);
        lemma_row_translated(a, chunk_x, chunk_z, b, chunk_x2, chunk_z2, n - 1, z, CHUNK_SIZE as nat);
        lemma_translate_concat(
            layer_vertices(a, chunk_x, chunk_z, z, (n - 1) as nat),
            row_vertices(a, chunk_x, chunk_z, n - 1, z, CHUNK_SIZE as nat),
            dx,
            dz,
        );
    }
}

proof fn lemma_chunk_translated(
    a: Map<(i32, i32), Seq<u8>>,
    chunk_x: int,
    chunk_z: int,
    b: Map<(i32, i32), Seq<u8>>,
    chunk_x2: int,
    chunk_z2: int,
    n: nat,
)
    requires
        agree_translated(a, chunk_x, chunk_z, b, chunk_x2, chunk_z2),
        chunk_world_fits(chunk_x),
        chunk_world_fits(chunk_z),
        chunk_world_fits(chunk_x2),
        chunk_world_fits(chunk_z2),
        n <= CHUNK_SIZE,
    ensures
        chunk_vertices(b, chunk_x2, chunk_z2, n) == translate_mesh(
            chunk_vertices(a, chunk_x, chunk_z, n),
            (chunk_x2 - chunk_x) * CHUNK_SIZE,
            (chunk_z2 - chunk_z) * CHUNK_SIZE,
        ),
    decreases n,
{
    let dx = (chunk_x2 - chunk_x) * CHUNK_SIZE;
    let dz = (chunk_z2 - chunk_z) * CHUNK_SIZE;
    if n == 0 {
        lemma_translate_concat(Seq::<Vertex>::empty(), Seq::<Vertex>::empty(), dx, dz);
    } else {
        lemma_chunk_translated(a, chunk_x, chunk_z, b, chunk_x2, chunk_z2, (n - 1) as nat);
        lemma_layer_translated(a, chunk_x, chunk_z, b, chunk_x2, chunk_z2, n - 1, CHUNK_HEIGHT as nat);
        lemma_translate_concat(
            chunk_vertices(a, chunk_x, chunk_z, (n - 1) as nat),
            layer_vertices(a, chunk_x, chunk_z, n - 1, CHUNK_HEIGHT as nat),
            dx,
            dz,
        );
    }
}

/// Meshing is translation invariant: when the neighbourhood of chunk `(chunk_x2, chunk_z2)`
/// in `b` holds, chunk by chunk, what the neighbourhood of chunk `(chunk_x, chunk_z)` holds
/// in `a`, the two meshes have the same length and the same vertices in the same order,
/// except that every position is moved by `32 * (chunk_x2 - chunk_x)` along x and
/// `32 * (chunk_z2 - chunk_z)` along z. Their index lists are then equal as well, being
/// determined by the number of vertices.
pub proof fn lemma_mesh_translates(
    a: Map<(i32, i32), Seq<u8>>,
    chunk_x: int,
    chunk_z: int,
    b: Map<(i32, i32), Seq<u8>>,
    chunk_x2: int,
    chunk_z2: int,
)
    requires
        agree_translated(a, chunk_x, chunk_z, b, chunk_x2, chunk_z2),
        chunk_world_fits(chunk_x),
        chunk_world_fits(chunk_z),
        chunk_world_fits(chunk_x2),
        chunk_world_fits(chunk_z2),
    ensures
        mesh_vertices(b, chunk_x2, chunk_z2) == translate_mesh(
            mesh_vertices(a, chunk_x, chunk_z),
            (chunk_x2 - chunk_x) * CHUNK_SIZE,
            (chunk_z2 - chunk_z) * CHUNK_SIZE,
        ),
        mesh_vertices(b, chunk_x2, chunk_z2).len() == mesh_vertices(a, chunk_x, chunk_z).len(),
{
    let dx = (chunk_x2 - chunk_x) * CHUNK_SIZE;
    let dz = (chunk_z2 - chunk_z) * CHUNK_SIZE;
    assert(same_entry_between(
        a,
        neighbourhood_keys(chunk_x, chunk_z)[0],
        b,
        neighbourhood_keys(chunk_x2, chunk_z2)[0],
    ));
    lemma_translate_concat(Seq::<Vertex>::empty(), Seq::<Vertex>::empty(), dx, dz);
    lemma_chunk_translated(a, chunk_x, chunk_z, b, chunk_x2, chunk_z2, CHUNK_SIZE as nat);
}

/// The index list of `quads` quads has six entries per quad, and the six entries of quad
/// `i` are `4i, 4i+1, 4i+2, 4i+2, 4i+3, 4i`: every index names a corner of its own quad,
/// so every index is below the number of corners `4 * quads`.
pub proof fn lemma_quad_indices(quads: nat)
    requires
        4 * quads <= u32::MAX,
    ensures
        quad_indices(quads).len() == 6 * quads,
        forall|i: int|
            #![trigger quad_indices(quads)[6 * i]]
            0 <= i < quads ==> {
                let s = quad_indices(quads);
                &&& s[6 * i] == 4 * i
                &&& s[6 * i + 1] == 4 * i + 1
                &&& s[6 * i + 2] == 4 * i + 2
                &&& s[6 * i + 3] == 4 * i + 2
                &&& s[6 * i + 4] == 4 * i + 3
                &&& s[6 * i + 5] == 4 * i
            },
        forall|j: int| 0 <= j < 6 * quads ==> #[trigger] quad_indices(quads)[j] < 4 * quads,
    decreases quads,
{
    if quads > 0 {
        lemma_quad_indices((quads - 1) as nat);
        let s = quad_indices(quads);
        let p = quad_indices((quads - 1) as nat);
        assert forall|i: int|
            #![trigger s[6 * i]]
            0 <= i < quads implies {
            &&& s[6 * i] == 4 * i
            &&& s[6 * i + 1] == 4 * i + 1
            &&& s[6 * i + 2] == 4 * i + 2
            &&& s[6 * i + 3] == 4 * i + 2
            &&& s[6 * i + 4] == 4 * i + 3
            &&& s[6 * i + 5] == 4 * i
        } by {
            if i < quads - 1 {
                assert(p[6 * i] == 4 * i);
            } else {
                let b = 4 * (quads - 1);
                assert(i == quads - 1);
                assert(s[6 * i] == b as u32);
                assert(s[6 * i + 1] == (b + 1) as u32);
                assert(s[6 * i + 2] == (b + 2) as u32);
                assert(s[6 * i + 3] == (b + 2) as u32);
                assert(s[6 * i + 4] == (b + 3) as u32);
                assert(s[6 * i + 5] == b as u32);
            }
        }
        assert forall|j: int| 0 <= j < 6 * quads implies #[trigger] s[j] < 4 * quads by {
            if j < 6 * (quads - 1) {
                assert(p[j] < 4 * (quads - 1));
            }
        }
    }
}

/// The neighbour across face `face` of the voxel at `(x, y, z)` (relative to chunk
/// `(chunk_x, chunk_z)`) is air. The six neighbours are written out one by one: faces 0
/// to 5 look at `x + 1`, `x - 1`, `y + 1`, `y - 1`, `z + 1` and `z - 1`.
pub open spec fn neighbour_across_is_air(
    chunks: Map<(i32, i32), Seq<u8>>,
    chunk_x: int,
    chunk_z: int,
    x: int,
    y: int,
    z: int,
    face: int,
) -> bool {
    if face == 0 {
        voxel_value(chunks, x + 1, y, z, chunk_x, chunk_z) == 0
    } else if face == 1 {
        voxel_value(chunks, x - 1, y, z, chunk_x, chunk_z) == 0
    } else if face == 2 {
        voxel_value(chunks, x, y + 1, z, chunk_x, chunk_z) == 0
    } else if face == 3 {
        voxel_value(chunks, x, y - 1, z, chunk_x, chunk_z) == 0
    } else if face == 4 {
        voxel_value(chunks, x, y, z + 1, chunk_x, chunk_z) == 0
    } else if face == 5 {
        voxel_value(chunks, x, y, z - 1, chunk_x, chunk_z) == 0
    } else {
        false
    }
}

/// `f = (x, y, z, face)` names an exposed face of chunk `(chunk_x, chunk_z)`: a face
/// (0 to 5) of a solid voxel of the chunk whose neighbour across it is air.
pub open spec fn exposed_face(
    chunks: Map<(i32, i32), Seq<u8>>,
    chunk_x: int,
    chunk_z: int,
    f: (int, int, int, int),
) -> bool {
    &&& 0 <= f.0 < CHUNK_SIZE
    &&& 0 <= f.1 < CHUNK_HEIGHT
    &&& 0 <= f.2 < CHUNK_SIZE
    &&& 0 <= f.3 < 6
    &&& voxel_value(chunks, f.0, f.1, f.2, chunk_x, chunk_z) != 0
    &&& neighbour_across_is_air(chunks, chunk_x, chunk_z, f.0, f.1, f.2, f.3)
}

/// The four corners that draw face `f = (x, y, z, face)` of chunk `(chunk_x, chunk_z)`:
/// the face of the block at world position `(x + chunk_x * CHUNK_SIZE, y,
/// z + chunk_z * CHUNK_SIZE)`, carrying the voxel's value as its block type.
pub open spec fn exposed_face_quad(
    chunks: Map<(i32, i32), Seq<u8>>,
    chunk_x: int,
    chunk_z: int,
    f: (int, int, int, int),
) -> Seq<Vertex> {
    face_quad(
        f.3,
        f.0 + chunk_x * CHUNK_SIZE,
        f.1,
        f.2 + chunk_z * CHUNK_SIZE,
        voxel_value(chunks, f.0, f.1, f.2, chunk_x, chunk_z) as u32,
    )
}

/// Position of face `f = (x, y, z, face)` in meshing order: z, then y, then x, then face.
spec fn face_order(f: (int, int, int, int)) -> int {
    f.2 * 6144 + f.1 * 192 + f.0 * 6 + f.3
}

/// `verts` draws the faces `faces`, four corners each and in strictly increasing meshing
/// order, each an exposed face with order in `lo..hi`; and every exposed face with order
/// in `lo..hi` is among them.
spec fn draws_exposed_faces(
    chunks: Map<(i32, i32), Seq<u8>>,
    chunk_x: int,
    chunk_z: int,
    verts: Seq<Vertex>,
    faces: Seq<(int, int, int, int)>,
    lo: int,
    hi: int,
) -> bool {
    &&& verts.len() == 4 * faces.len()
    &&& forall|k: int|
        0 <= k < faces.len() ==> {
            &&& exposed_face(chunks, chunk_x, chunk_z, #[trigger] faces[k])
            &&& lo <= face_order(faces[k]) < hi
            &&& verts.subrange(4 * k, 4 * k + 4) == exposed_face_quad(
                chunks,
                chunk_x,
                chunk_z,
                faces[k],
            )
        }
    &&& forall|i: int, j: int|
        0 <= i < j < faces.len() ==> face_order(#[trigger] faces[i]) < face_order(
            #[trigger] faces[j],
        )
    &&& forall|f: (int, int, int, int)|
        #[trigger] exposed_face(chunks, chunk_x, chunk_z, f) && lo <= face_order(f) < hi
            ==> faces.contains(f)
}

/// The faces drawn for the voxel at local `(x, y, z)`, over its first `n` faces.
spec fn cell_faces(
    chunks: Map<(i32, i32), Seq<u8>>,
    chunk_x: int,
    chunk_z: int,
    x: int,
    y: int,
    z: int,
    n: nat,
) -> Seq<(int, int, int, int)>
    decreases n,
{
    if n == 0 {
        seq![]
    } else {
        let prev = cell_faces(chunks, chunk_x, chunk_z, x, y, z, (n - 1) as nat);
        if face_shown(chunks, chunk_x, chunk_z, x, y, z, n - 1) {
            prev.push((x, y, z, n - 1))
        } else {
            prev
        }
    }
}

/// The faces drawn for the first `n` voxels of row `(y, z)`.
spec fn row_faces(
    chunks: Map<(i32, i32), Seq<u8>>,
    chunk_x: int,
    chunk_z: int,
    y: int,
    z: int,
    n: nat,
) -> Seq<(int, int, int, int)>
    decreases n,
{
    if n == 0 {
        seq![]
    } else {
        let cell = cell_faces(chunks, chunk_x, chunk_z, n - 1, y, z, 6);
        row_faces(chunks, chunk_x, chunk_z, y, z, (n - 1) as nat) + cell
    }
}

/// The faces drawn for the first `n` rows of layer `z`.
spec fn layer_faces(
    chunks: Map<(i32, i32), Seq<u8>>,
    chunk_x: int,
    chunk_z: int,
    z: int,
    n: nat,
) -> Seq<(int, int, int, int)>
    decreases n,
{
    if n == 0 {
        seq![]
    } else {
        layer_faces(chunks, chunk_x, chunk_z, z, (n - 1) as nat) + row_faces(
            chunks,
            chunk_x,
            chunk_z,
            n - 1,
            z,
            CHUNK_SIZE as nat,
        )
    }
}

/// The faces drawn for the first `n` layers of the chunk.
spec fn chunk_faces(
    chunks: Map<(i32, i32), Seq<u8>>,
    chunk_x: int,
    chunk_z: int,
    n: nat,
) -> Seq<(int, int, int, int)>
    decreases n,
{
    if n == 0 {
        seq![]
    } else {
        chunk_faces(chunks, chunk_x, chunk_z, (n - 1) as nat) + layer_faces(
            chunks,
            chunk_x,
            chunk_z,
            n - 1,
            CHUNK_HEIGHT as nat,
        )
    }
}

proof fn lemma_face_order_unique(f: (int, int, int, int), g: (int, int, int, int))
    requires
        0 <= f.0 < CHUNK_SIZE && 0 <= f.1 < CHUNK_HEIGHT && 0 <= f.2 < CHUNK_SIZE && 0 <= f.3 < 6,
        0 <= g.0 < CHUNK_SIZE && 0 <= g.1 < CHUNK_HEIGHT && 0 <= g.2 < CHUNK_SIZE && 0 <= g.3 < 6,
        face_order(f) == face_order(g),
    ensures
        f == g,
{
    if f.2 < g.2 {
        assert(face_order(g) - face_order(f) >= 6144 - 31 * 192 - 31 * 6 - 5);
    } else if g.2 < f.2 {
        assert(face_order(f) - face_order(g) >= 6144 - 31 * 192 - 31 * 6 - 5);
    }
    assert(f.2 == g.2);
    if f.1 < g.1 {
        assert(face_order(g) - face_order(f) >= 192 - 31 * 6 - 5);
    } else if g.1 < f.1 {
        assert(face_order(f) - face_order(g) >= 192 - 31 * 6 - 5);
    }
    assert(f.1 == g.1);
    if f.0 < g.0 {
        assert(face_order(g) - face_order(f) >= 6 - 5);
    } else if g.0 < f.0 {
        assert(face_order(f) - face_order(g) >= 6 - 5);
    }
}

proof fn lemma_draws_concat(
    chunks: Map<(i32, i32), Seq<u8>>,
    chunk_x: int,
    chunk_z: int,
    v1: Seq<Vertex>,
    f1: Seq<(int, int, int, int)>,
    v2: Seq<Vertex>,
    f2: Seq<(int, int, int, int)>,
    a: int,
    b: int,
    c: int,
)
    requires
        a <= b <= c,
        draws_exposed_faces(chunks, chunk_x, chunk_z, v1, f1, a, b),
        draws_exposed_faces(chunks, chunk_x, chunk_z, v2, f2, b, c),
    ensures
        draws_exposed_faces(chunks, chunk_x, chunk_z, v1 + v2, f1 + f2, a, c),
{
    let v = v1 + v2;
    let f = f1 + f2;
    let n1 = f1.len() as int;
    assert forall|k: int| 0 <= k < f.len() implies {
        &&& exposed_face(chunks, chunk_x, chunk_z, #[trigger] f[k])
        &&& a <= face_order(f[k]) < c
        &&& v.subrange(4 * k, 4 * k + 4) == exposed_face_quad(chunks, chunk_x, chunk_z, f[k])
    } by {
        if k < n1 {
            assert(f[k] == f1[k]);
            assert(v.subrange(4 * k, 4 * k + 4) =~= v1.subrange(4 * k, 4 * k + 4));
        } else {
            let k2 = k - n1;
            assert(f[k] == f2[k2]);
            assert(v.subrange(4 * k, 4 * k + 4) =~= v2.subrange(4 * k2, 4 * k2 + 4));
        }
    }
    assert forall|i: int, j: int| 0 <= i < j < f.len() implies face_order(#[trigger] f[i])
        < face_order(#[trigger] f[j]) by {
        if j < n1 {
            assert(f[i] == f1[i] && f[j] == f1[j]);
        } else if i >= n1 {
            assert(f[i] == f2[i - n1] && f[j] == f2[j - n1]);
        } else {
            assert(f[i] == f1[i] && f[j] == f2[j - n1]);
        }
    }
    assert forall|g: (int, int, int, int)|
        #[trigger] exposed_face(chunks, chunk_x, chunk_z, g) && a <= face_order(g) < c
            implies f.contains(g) by {
        if face_order(g) < b {
            assert(f1.contains(g));
            let i = choose|i: int| 0 <= i < f1.len() && f1[i] == g;
            assert(f[i] == g);
        } else {
            assert(f2.contains(g));
            let i = choose|i: int| 0 <= i < f2.len() && f2[i] == g;
            assert(f[n1 + i] == g);
        }
    }
}

proof fn lemma_face_shown_is_exposed(
    chunks: Map<(i32, i32), Seq<u8>>,
    chunk_x: int,
    chunk_z: int,
    x: int,
    y: int,
    z: int,
    face: int,
)
    requires
        in_chunk(x, y, z),
        0 <= face < 6,
    ensures
        face_shown(chunks, chunk_x, chunk_z, x, y, z, face) == exposed_face(
            chunks,
            chunk_x,
            chunk_z,
            (x, y, z, face),
        ),
{
}

proof fn lemma_cell_draws(
    chunks: Map<(i32, i32), Seq<u8>>,
    chunk_x: int,
    chunk_z: int,
    x: int,
    y: int,
    z: int,
    n: nat,
)
    requires
        in_chunk(x, y, z),
        n <= 6,
    ensures
        draws_exposed_faces(
            chunks,
            chunk_x,
            chunk_z,
            cell_vertices(chunks, chunk_x, chunk_z, x, y, z, n),
            cell_faces(chunks, chunk_x, chunk_z, x, y, z, n),
            face_order((x, y, z, 0)),
            face_order((x, y, z, 0)) + n,
        ),
    decreases n,
{
    let lo = face_order((x, y, z, 0));
    if n > 0 {
        let m = (n - 1) as nat;
        lemma_cell_draws(chunks, chunk_x, chunk_z, x, y, z, m);
        let pv = cell_vertices(chunks, chunk_x, chunk_z, x, y, z, m);
        let pf = cell_faces(chunks, chunk_x, chunk_z, x, y, z, m);
        let p = (x, y, z, m as int);
        lemma_face_shown_is_exposed(chunks, chunk_x, chunk_z, x, y, z, m as int);
        assert(face_order(p) == lo + m);
        if face_shown(chunks, chunk_x, chunk_z, x, y, z, m as int) {
            let qv = exposed_face_quad(chunks, chunk_x, chunk_z, p);
            let qf = seq![p];
            assert(qv.subrange(0, 4) =~= qv);
            assert forall|g: (int, int, int, int)|
                #[trigger] exposed_face(chunks, chunk_x, chunk_z, g) && lo + m <= face_order(g)
                    < lo + n implies qf.contains(g) by {
                lemma_face_order_unique(g, p);
                assert(qf[0] == g);
            }
            assert(draws_exposed_faces(chunks, chunk_x, chunk_z, qv, qf, lo + m, lo + n));
            lemma_draws_concat(chunks, chunk_x, chunk_z, pv, pf, qv, qf, lo, lo + m, lo + n);
            assert(pf.push(p) =~= pf + qf);
        } else {
            assert forall|g: (int, int, int, int)|
                #[trigger] exposed_face(chunks, chunk_x, chunk_z, g) && lo <= face_order(g) < lo
                    + n implies pf.contains(g) by {
                if face_order(g) == lo + m {
                    lemma_face_order_unique(g, p);
                }
            }
        }
    }
}

proof fn lemma_row_draws(
    chunks: Map<(i32, i32), Seq<u8>>,
    chunk_x: int,
    chunk_z: int,
    y: int,
    z: int,
    n: nat,
)
    requires
        0 <= y < CHUNK_HEIGHT,
        0 <= z < CHUNK_SIZE,
        n <= CHUNK_SIZE,
    ensures
        draws_exposed_faces(
            chunks,
            chunk_x,
            chunk_z,
            row_vertices(chunks, chunk_x, chunk_z, y, z, n),
            row_faces(chunks, chunk_x, chunk_z, y, z, n),
            face_order((0, y, z, 0)),
            face_order((0, y, z, 0)) + 6 * n,
        ),
    decreases n,
{
    let lo = face_order((0, y, z, 0));
    if n > 0 {
        let m = (n - 1) as nat;
        lemma_row_draws(chunks, chunk_x, chunk_z, y, z, m);
        lemma_cell_draws(chunks, chunk_x, chunk_z, m as int, y, z, 6);
        assert(face_order((m as int, y, z, 0)) == lo + 6 * m);
        lemma_draws_concat(
            chunks,
            chunk_x,
            chunk_z,
            row_vertices(chunks, chunk_x, chunk_z, y, z, m),
            row_faces(chunks, chunk_x, chunk_z, y, z, m),
            cell_vertices(chunks, chunk_x, chunk_z, m as int, y, z, 6),
            cell_faces(chunks, chunk_x, chunk_z, m as int, y, z, 6),
            lo,
            lo + 6 * m,
            lo + 6 * n,
        );
    }
}

proof fn lemma_layer_draws(
    chunks: Map<(i32, i32), Seq<u8>>,
    chunk_x: int,
    chunk_z: int,
    z: int,
    n: nat,
)
    requires
        0 <= z < CHUNK_SIZE,
        n <= CHUNK_HEIGHT,
    ensures
        draws_exposed_faces(
            chunks,
            chunk_x,
            chunk_z,
            layer_vertices(chunks, chunk_x, chunk_z, z, n),
            layer_faces(chunks, chunk_x, chunk_z, z, n),
            face_order((0, 0, z, 0)),
            face_order((0, 0, z, 0)) + 192 * n,
        ),
    decreases n,
{
    let lo = face_order((0, 0, z, 0));
    if n > 0 {
        let m = (n - 1) as nat;
        lemma_layer_draws(chunks, chunk_x, chunk_z, z, m);
        lemma_row_draws(chunks, chunk_x, chunk_z, m as int, z, CHUNK_SIZE as nat);
        assert(face_order((0, m as int, z, 0)) == lo + 192 * m);
        lemma_draws_concat(
            chunks,
            chunk_x,
            chunk_z,
            layer_vertices(chunks, chunk_x, chunk_z, z, m),
            layer_faces(chunks, chunk_x, chunk_z, z, m),
            row_vertices(chunks, chunk_x, chunk_z, m as int, z, CHUNK_SIZE as nat),
            row_faces(chunks, chunk_x, chunk_z, m as int, z, CHUNK_SIZE as nat),
            lo,
            lo + 192 * m,
            lo + 192 * n,
        );
    }
}

proof fn lemma_chunk_draws(
    chunks: Map<(i32, i32), Seq<u8>>,
    chunk_x: int,
    chunk_z: int,
    n: nat,
)
    requires
        n <= CHUNK_SIZE,
    ensures
        draws_exposed_faces(
            chunks,
            chunk_x,
            chunk_z,
            chunk_vertices(chunks, chunk_x, chunk_z, n),
            chunk_faces(chunks, chunk_x, chunk_z, n),
            0,
            6144 * n as int,
        ),
    decreases n,
{
    if n > 0 {
        let m = (n - 1) as nat;
        lemma_chunk_draws(chunks, chunk_x, chunk_z, m);
        lemma_layer_draws(chunks, chunk_x, chunk_z, m as int, CHUNK_HEIGHT as nat);
        assert(face_order((0, 0, m as int, 0)) == 6144 * m);
        lemma_draws_concat(
            chunks,
            chunk_x,
            chunk_z,
            chunk_vertices(chunks, chunk_x, chunk_z, m),
            chunk_faces(chunks, chunk_x, chunk_z, m),
            layer_vertices(chunks, chunk_x, chunk_z, m as int, CHUNK_HEIGHT as nat),
            layer_faces(chunks, chunk_x, chunk_z, m as int, CHUNK_HEIGHT as nat),
            0,
            6144 * m as int,
            6144 * n as int,
        );
    }
}

/// The mesh of a stored chunk draws every exposed face exactly once and nothing else:
/// there is a list `faces` of distinct exposed faces `(x, y, z, face)` (a face of a solid
/// voxel of the chunk, for each of the six faces +X, -X, +Y, -Y, +Z, -Z, whose neighbour
/// across it is air) that holds every exposed face, and the mesh is their corners, four
/// per face: corners `4k..4k + 4` draw `faces[k]`.
pub proof fn lemma_mesh_draws_each_exposed_face_once(
    chunks: Map<(i32, i32), Seq<u8>>,
    chunk_x: int,
    chunk_z: int,
) -> (faces: Seq<(int, int, int, int)>)
    requires
        chunks.dom().contains((chunk_x as i32, chunk_z as i32)),
    ensures
        mesh_vertices(chunks, chunk_x, chunk_z).len() == 4 * faces.len(),
        faces.no_duplicates(),
        forall|k: int|
            0 <= k < faces.len() ==> exposed_face(chunks, chunk_x, chunk_z, #[trigger] faces[k])
                && mesh_vertices(chunks, chunk_x, chunk_z).subrange(4 * k, 4 * k + 4)
                == exposed_face_quad(chunks, chunk_x, chunk_z, faces[k]),
        forall|f: (int, int, int, int)|
            #[trigger] exposed_face(chunks, chunk_x, chunk_z, f) ==> faces.contains(f),
{
    let faces = chunk_faces(chunks, chunk_x, chunk_z, CHUNK_SIZE as nat);
    lemma_chunk_draws(chunks, chunk_x, chunk_z, CHUNK_SIZE as nat);
    assert forall|i: int, j: int|
        0 <= i < faces.len() && 0 <= j < faces.len() && i != j implies faces[i] != faces[j] by {
        if i < j {
            assert(face_order(faces[i]) < face_order(faces[j]));
        } else {
            assert(face_order(faces[j]) < face_order(faces[i]));
        }
    }
    faces
}

/// Looking up a voxel reads the chunk that holds it, across chunk borders. Inside the
/// chunk's columns it is the stored voxel `x + y * CHUNK_SIZE + z * CHUNK_SIZE * CHUNK_SIZE`
/// of the chunk itself (solid when the chunk is not stored); one step off a side it is the
/// voxel on the facing side of the neighbour there (`x = -1` is `x = CHUNK_SIZE - 1` of the
/// chunk at `chunk_x - 1`, `x = CHUNK_SIZE` is `x = 0` of the chunk at `chunk_x + 1`, and
/// the same along z); below the world it is solid and above it air.
pub proof fn lemma_voxel_lookup_across_borders(
    chunks: Map<(i32, i32), Seq<u8>>,
    chunk_x: i32,
    chunk_z: i32,
    x: int,
    y: int,
    z: int,
)
    ensures
        y < 0 ==> voxel_value(chunks, x, y, z, chunk_x as int, chunk_z as int) == 1,
        y >= CHUNK_HEIGHT ==> voxel_value(chunks, x, y, z, chunk_x as int, chunk_z as int) == 0,
        0 <= x < CHUNK_SIZE && 0 <= y < CHUNK_HEIGHT && 0 <= z < CHUNK_SIZE ==> voxel_value(
            chunks,
            x,
            y,
            z,
            chunk_x as int,
            chunk_z as int,
        ) == (if chunks.dom().contains((chunk_x, chunk_z)) {
            chunks[(chunk_x, chunk_z)][x + y * CHUNK_SIZE + z * CHUNK_SIZE * CHUNK_SIZE]
        } else {
            1
        }),
        0 <= y < CHUNK_HEIGHT && 0 <= z < CHUNK_SIZE && chunk_x > i32::MIN ==> voxel_value(
            chunks,
            -1,
            y,
            z,
            chunk_x as int,
            chunk_z as int,
        ) == voxel_value(chunks, CHUNK_SIZE - 1, y, z, chunk_x - 1, chunk_z as int),
        0 <= y < CHUNK_HEIGHT && 0 <= z < CHUNK_SIZE && chunk_x < i32::MAX ==> voxel_value(
            chunks,
            CHUNK_SIZE as int,
            y,
            z,
            chunk_x as int,
            chunk_z as int,
        ) == voxel_value(chunks, 0, y, z, chunk_x + 1, chunk_z as int),
        0 <= y < CHUNK_HEIGHT && 0 <= x < CHUNK_SIZE && chunk_z > i32::MIN ==> voxel_value(
            chunks,
            x,
            y,
            -1,
            chunk_x as int,
            chunk_z as int,
        ) == voxel_value(chunks, x, y, CHUNK_SIZE - 1, chunk_x as int, chunk_z - 1),
        0 <= y < CHUNK_HEIGHT && 0 <= x < CHUNK_SIZE && chunk_z < i32::MAX ==> voxel_value(
            chunks,
            x,
            y,
            CHUNK_SIZE as int,
            chunk_x as int,
            chunk_z as int,
        ) == voxel_value(chunks, x, y, 0, chunk_x as int, chunk_z + 1),
{
}

/// The vector from point `from` to point `to`.
pub open spec fn displacement(from: (i64, i64, i64), to: (i64, i64, i64)) -> (int, int, int) {
    (to.0 - from.0, to.1 - from.1, to.2 - from.2)
}

/// The cross product of two vectors.
pub open spec fn cross(a: (int, int, int), b: (int, int, int)) -> (int, int, int) {
    (a.1 * b.2 - a.2 * b.1, a.2 * b.0 - a.0 * b.2, a.0 * b.1 - a.1 * b.0)
}

/// Each face is drawn as the unit square of the block's side that it names: its four
/// corners are the four distinct corners of that square (on the plane `x + 1` for +X,
/// `x` for -X, `y + 1` for +Y, `y` for -Y, `z + 1` for +Z, `z` for -Z), both triangles
/// `0, 1, 2` and `2, 3, 0` have area and face outwards (their normal is the face's
/// outward unit normal), the texture corners run `(1, 1), (0, 1), (0, 0), (1, 0)`, and
/// every corner carries the block type and the face's light: 70 for the X faces, 100 for
/// the top, 40 for the bottom, 85 for +Z and 50 for -Z.
pub proof fn lemma_face_quad_is_outward_unit_square(
    face: int,
    x: int,
    y: int,
    z: int,
    block_type: u32,
)
    requires
        0 <= face < 6,
        i64::MIN <= x < i64::MAX,
        i64::MIN <= y < i64::MAX,
        i64::MIN <= z < i64::MAX,
    ensures
        ({
            let q = face_quad(face, x, y, z, block_type);
            let normal: (int, int, int) = if face == 0 {
                (1, 0, 0)
            } else if face == 1 {
                (-1, 0, 0)
            } else if face == 2 {
                (0, 1, 0)
            } else if face == 3 {
                (0, -1, 0)
            } else if face == 4 {
                (0, 0, 1)
            } else {
                (0, 0, -1)
            };
            let light: u32 = if face == 0 || face == 1 {
                70
            } else if face == 2 {
                100
            } else if face == 3 {
                40
            } else if face == 4 {
                85
            } else {
                50
            };
            &&& q.len() == 4
            &&& forall|i: int|
                #![trigger q[i]]
                0 <= i < 4 ==> {
                    let p = q[i].position;
                    &&& p.0 == x || p.0 == x + 1
                    &&& p.1 == y || p.1 == y + 1
                    &&& p.2 == z || p.2 == z + 1
                    &&& face == 0 ==> p.0 == x + 1
                    &&& face == 1 ==> p.0 == x
                    &&& face == 2 ==> p.1 == y + 1
                    &&& face == 3 ==> p.1 == y
                    &&& face == 4 ==> p.2 == z + 1
                    &&& face == 5 ==> p.2 == z
                    &&& q[i].block_type == block_type
                    &&& q[i].light == light
                }
            &&& forall|i: int, j: int|
                0 <= i < j < 4 ==> #[trigger] q[i].position != #[trigger] q[j].position
            &&& cross(
                displacement(q[0].position, q[1].position),
                displacement(q[0].position, q[2].position),
            ) == normal
            &&& cross(
                displacement(q[2].position, q[3].position),
                displacement(q[2].position, q[0].position),
            ) == normal
            &&& q[0].tex_coords == (1u32, 1u32)
            &&& q[1].tex_coords == (0u32, 1u32)
            &&& q[2].tex_coords == (0u32, 0u32)
            &&& q[3].tex_coords == (1u32, 0u32)
        }),
{
    let q = face_quad(face, x, y, z, block_type);
    if face == 0 {
        assert(displacement(q[0].position, q[1].position) == (0int, 0int, -1int));
        assert(displacement(q[0].position, q[2].position) == (0int, 1int, -1int));
        assert(displacement(q[2].position, q[3].position) == (0int, 0int, 1int));
        assert(displacement(q[2].position, q[0].position) == (0int, -1int, 1int));
        assert(cross((0int, 0int, -1int), (0int, 1int, -1int)) == (1int, 0int, 0int)) by (nonlinear_arith);
        assert(cross((0int, 0int, 1int), (0int, -1int, 1int)) == (1int, 0int, 0int)) by (nonlinear_arith);
    } else if face == 1 {
        assert(displacement(q[0].position, q[1].position) == (0int, 0int, 1int));
        assert(displacement(q[0].position, q[2].position) == (0int, 1int, 1int));
        assert(displacement(q[2].position, q[3].position) == (0int, 0int, -1int));
        assert(displacement(q[2].position, q[0].position) == (0int, -1int, -1int));
        assert(cross((0int, 0int, 1int), (0int, 1int, 1int)) == (-1int, 0int, 0int)) by (nonlinear_arith);
        assert(cross((0int, 0int, -1int), (0int, -1int, -1int)) == (-1int, 0int, 0int)) by (nonlinear_arith);
    } else if face == 2 {
        assert(displacement(q[0].position, q[1].position) == (-1int, 0int, 0int));
        assert(displacement(q[0].position, q[2].position) == (-1int, 0int, 1int));
        assert(displacement(q[2].position, q[3].position) == (1int, 0int, 0int));
        assert(displacement(q[2].position, q[0].position) == (1int, 0int, -1int));
        assert(cross((-1int, 0int, 0int), (-1int, 0int, 1int)) == (0int, 1int, 0int)) by (nonlinear_arith);
        assert(cross((1int, 0int, 0int), (1int, 0int, -1int)) == (0int, 1int, 0int)) by (nonlinear_arith);
    } else if face == 3 {
        assert(displacement(q[0].position, q[1].position) == (-1int, 0int, 0int));
        assert(displacement(q[0].position, q[2].position) == (-1int, 0int, -1int));
        assert(displacement(q[2].position, q[3].position) == (1int, 0int, 0int));
        assert(displacement(q[2].position, q[0].position) == (1int, 0int, 1int));
        assert(cross((-1int, 0int, 0int), (-1int, 0int, -1int)) == (0int, -1int, 0int)) by (nonlinear_arith);
        assert(cross((1int, 0int, 0int), (1int, 0int, 1int)) == (0int, -1int, 0int)) by (nonlinear_arith);
    } else if face == 4 {
        assert(displacement(q[0].position, q[1].position) == (1int, 0int, 0int));
        assert(displacement(q[0].position, q[2].position) == (1int, 1int, 0int));
        assert(displacement(q[2].position, q[3].position) == (-1int, 0int, 0int));
        assert(displacement(q[2].position, q[0].position) == (-1int, -1int, 0int));
        assert(cross((1int, 0int, 0int), (1int, 1int, 0int)) == (0int, 0int, 1int)) by (nonlinear_arith);
        assert(cross((-1int, 0int, 0int), (-1int, -1int, 0int)) == (0int, 0int, 1int)) by (nonlinear_arith);
    } else if face == 5 {
        assert(displacement(q[0].position, q[1].position) == (-1int, 0int, 0int));
        assert(displacement(q[0].position, q[2].position) == (-1int, 1int, 0int));
        assert(displacement(q[2].position, q[3].position) == (1int, 0int, 0int));
        assert(displacement(q[2].position, q[0].position) == (1int, -1int, 0int));
        assert(cross((-1int, 0int, 0int), (-1int, 1int, 0int)) == (0int, 0int, -1int)) by (nonlinear_arith);
        assert(cross((1int, 0int, 0int), (1int, -1int, 0int)) == (0int, 0int, -1int)) by (nonlinear_arith);
    }
}

impl ChunkMesh {
    /// The four corners of face `face_index` (0 to 5: +X, -X, +Y, -Y, +Z, -Z) of the block
    /// whose lowest corner is `(x, y, z)`.
    pub fn get_face_vertices(face_index: usize, x: i32, y: i32, z: i32, block_type: u32) -> (quad: [Vertex; 4])
        requires
            face_index < 6,
        ensures
            quad@ == face_quad(face_index as int, x as int, y as int, z as int, block_type),
    {
        let x0: i64 = x as i64;
        let y0: i64 = y as i64;
        let z0: i64 = z as i64;
        let x1: i64 = x0 + 1;
        let y1: i64 = y0 + 1;
        let z1: i64 = z0 + 1;
        let quad = match face_index {
            0 => {
                let light: u32 = 70;
                [
                    Vertex { position: (x1, y0, z1), tex_coords: (1, 1), block_type, light },
                    Vertex { position: (x1, y0, z0), tex_coords: (0, 1), block_type, light },
                    Vertex { position: (x1, y1, z0), tex_coords: (0, 0), block_type, light },
                    Vertex { position: (x1, y1, z1), tex_coords: (1, 0), block_type, light },
                ]
            },
            1 => {
                let light: u32 = 70;
                [
                    Vertex { position: (x0, y0, z0), tex_coords: (1, 1), block_type, light },
                    Vertex { position: (x0, y0, z1), tex_coords: (0, 1), block_type, light },
                    Vertex { position: (x0, y1, z1), tex_coords: (0, 0), block_type, light },
                    Vertex { position: (x0, y1, z0), tex_coords: (1, 0), block_type, light },
                ]
            },
            2 => {
                let light: u32 = 100;
                [
                    Vertex { position: (x1, y1, z0), tex_coords: (1, 1), block_type, light },
                    Vertex { position: (x0, y1, z0), tex_coords: (0, 1), block_type, light },
                    Vertex { position: (x0, y1, z1), tex_coords: (0, 0), block_type, light },
                    Vertex { position: (x1, y1, z1), tex_coords: (1, 0), block_type, light },
                ]
            },
            3 => {
                let light: u32 = 40;
                [
                    Vertex { position: (x1, y0, z1), tex_coords: (1, 1), block_type, light },
                    Vertex { position: (x0, y0, z1), tex_coords: (0, 1), block_type, light },
                    Vertex { position: (x0, y0, z0), tex_coords: (0, 0), block_type, light },
                    Vertex { position: (x1, y0, z0), tex_coords: (1, 0), block_type, light },
                ]
            },
            4 => {
                let light: u32 = 85;
                [
                    Vertex { position: (x0, y0, z1), tex_coords: (1, 1), block_type, light },
                    Vertex { position: (x1, y0, z1), tex_coords: (0, 1), block_type, light },
                    Vertex { position: (x1, y1, z1), tex_coords: (0, 0), block_type, light },
                    Vertex { position: (x0, y1, z1), tex_coords: (1, 0), block_type, light },
                ]
            },
            _ => {
                let light: u32 = 50;
                [
                    Vertex { position: (x1, y0, z0), tex_coords: (1, 1), block_type, light },
                    Vertex { position: (x0, y0, z0), tex_coords: (0, 1), block_type, light },
                    Vertex { position: (x0, y1, z0), tex_coords: (0, 0), block_type, light },
                    Vertex { position: (x1, y1, z0), tex_coords: (1, 0), block_type, light },
                ]
            },
        };
        assert(quad@ =~= face_quad(face_index as int, x as int, y as int, z as int, block_type));
        quad
    }

    /// The voxel at `(x, y, z)` relative to chunk `(chunk_x, chunk_z)`, looking into the
    /// neighbouring chunk when the column lies just off this one.
    ///
    /// The result is stated for a table that no other thread changes during the call
    /// (a `DashMap` can be changed through a shared reference).
    pub fn get_voxel(
        x: i32,
        y: i32,
        z: i32,
        chunk_x: i32,
        chunk_z: i32,
        voxels: &ChunkTable,
    ) -> (voxel: u8)
        requires
            voxel_lookup_defined(stored_chunks(*voxels), x as int, y as int, z as int, chunk_x as int, chunk_z as int),
        ensures
            voxel == voxel_value(stored_chunks(*voxels), x as int, y as int, z as int, chunk_x as int, chunk_z as int),
    {
        if y < 0 {
            return 1;
        }
        if y >= CHUNK_HEIGHT {
            return 0;
        }
        let (owner_x, owner_z, local_x, local_z) = if x < 0 {
            (chunk_x - 1, chunk_z, CHUNK_SIZE - 1, z)
        } else if x >= CHUNK_SIZE {
            (chunk_x + 1, chunk_z, 0, z)
        } else if z < 0 {
            (chunk_x, chunk_z - 1, x, CHUNK_SIZE - 1)
        } else if z >= CHUNK_SIZE {
            (chunk_x, chunk_z + 1, x, 0)
        } else {
            (chunk_x, chunk_z, x, z)
        };
        match chunk_table_get(voxels, (owner_x, owner_z)) {
            Some(data) => {
                proof {
                    lemma_voxel_index_bijective();
                    assert(in_chunk(local_x as int, y as int, local_z as int));
                }
                data.voxels[MeshData::get_index(local_x, y, local_z)]
            },
            None => 1,
        }
    }
    /// Builds the mesh of chunk `(chunk_x, chunk_z)` from the stored chunks: for every solid
    /// voxel and every face whose neighbour is air, the face's four corners and the six
    /// indices of its two triangles. A chunk that is not stored gives an empty mesh.
    ///
    /// The result is stated for a table that no other thread changes during the call
    /// (a `DashMap` can be changed through a shared reference).
    #[verifier::rlimit(50)]
    pub fn build_mesh_data(chunk_x: i32, chunk_z: i32, voxels: &ChunkTable) -> (mesh: (
        Vec<Vertex>,
        Vec<u32>,
    ))
        requires
            mesh_arithmetic_fits(stored_chunks(*voxels), chunk_x as int, chunk_z as int),
        ensures
            mesh.0@ == mesh_vertices(stored_chunks(*voxels), chunk_x as int, chunk_z as int),
            mesh.0@.len() % 4 == 0,
            mesh.1@ == quad_indices((mesh.0@.len() / 4) as nat),
            mesh.0@.len() <= 24 * CHUNK_VOLUME,
            mesh.1@.len() == mesh.0@.len() / 4 * 6,
            forall|j: int| 0 <= j < mesh.1@.len() ==> #[trigger] mesh.1@[j] < mesh.0@.len(),
    {
        let ghost m = stored_chunks(*voxels);
        if !chunk_table_contains(voxels, (chunk_x, chunk_z)) {
            proof {
                lemma_quad_indices(0);
            }
            return (Vec::new(), Vec::new());
        }
        let mut vertices: Vec<Vertex> = Vec::new();
        let mut indices: Vec<u32> = Vec::new();
        let mut vertex_count: u32 = 0;
        let ghost mut q: nat = 0;

        let mut z: i32 = 0;
        while z < CHUNK_SIZE
            invariant
                0 <= z <= CHUNK_SIZE,
                m == stored_chunks(*voxels),
                m.dom().contains((chunk_x, chunk_z)),
                mesh_arithmetic_fits(m, chunk_x as int, chunk_z as int),
                vertices@ == chunk_vertices(m, chunk_x as int, chunk_z as int, z as nat),
                vertices@.len() == 4 * q,
                vertex_count == 4 * q,
                indices@ == quad_indices(q),
                q <= 6144 * z,
            decreases CHUNK_SIZE - z,
        {
            let ghost before_layer = vertices@;
            let mut y: i32 = 0;
            while y < CHUNK_HEIGHT
                invariant
                    0 <= z < CHUNK_SIZE,
                    0 <= y <= CHUNK_HEIGHT,
                    m == stored_chunks(*voxels),
                    m.dom().contains((chunk_x, chunk_z)),
                    mesh_arithmetic_fits(m, chunk_x as int, chunk_z as int),
                    before_layer == chunk_vertices(m, chunk_x as int, chunk_z as int, z as nat),
                    vertices@ == before_layer + layer_vertices(
                        m,
                        chunk_x as int,
                        chunk_z as int,
                        z as int,
                        y as nat,
                    ),
                    vertices@.len() == 4 * q,
                    vertex_count == 4 * q,
                    indices@ == quad_indices(q),
                    q <= 6144 * z + 192 * y,
                decreases CHUNK_HEIGHT - y,
            {
                let ghost before_row = vertices@;
                let mut x: i32 = 0;
                while x < CHUNK_SIZE
                    invariant
                        0 <= z < CHUNK_SIZE,
                        0 <= y < CHUNK_HEIGHT,
                        0 <= x <= CHUNK_SIZE,
                        m == stored_chunks(*voxels),
                        m.dom().contains((chunk_x, chunk_z)),
                        mesh_arithmetic_fits(m, chunk_x as int, chunk_z as int),
                        before_row == before_layer + layer_vertices(
                            m,
                            chunk_x as int,
                            chunk_z as int,
                            z as int,
                            y as nat,
                        ),
                        vertices@ == before_row + row_vertices(
                            m,
                            chunk_x as int,
                            chunk_z as int,
                            y as int,
                            z as int,
                            x as nat,
                        ),
                        vertices@.len() == 4 * q,
                        vertex_count == 4 * q,
                        indices@ == quad_indices(q),
                        q <= 6144 * z + 192 * y + 6 * x,
                    decreases CHUNK_SIZE - x,
                {
                    let current_voxel = Self::get_voxel(x, y, z, chunk_x, chunk_z, voxels);
                    let ghost before_cell = vertices@;
                    if current_voxel != 0 {
                        let mut face_index: usize = 0;
                        while face_index < 6
                            invariant
                                0 <= z < CHUNK_SIZE,
                                0 <= y < CHUNK_HEIGHT,
                                0 <= x < CHUNK_SIZE,
                                0 <= face_index <= 6,
                                current_voxel != 0,
                                m == stored_chunks(*voxels),
                                m.dom().contains((chunk_x, chunk_z)),
                                mesh_arithmetic_fits(m, chunk_x as int, chunk_z as int),
                                current_voxel == voxel_value(
                                    m,
                                    x as int,
                                    y as int,
                                    z as int,
                                    chunk_x as int,
                                    chunk_z as int,
                                ),
                                vertices@ == before_cell + cell_vertices(
                                    m,
                                    chunk_x as int,
                                    chunk_z as int,
                                    x as int,
                                    y as int,
                                    z as int,
                                    face_index as nat,
                                ),
                                vertices@.len() == 4 * q,
                                vertex_count == 4 * q,
                                indices@ == quad_indices(q),
                                q <= 6144 * z + 192 * y + 6 * x + face_index,
                            decreases 6 - face_index,
                        {
                            let (dx, dy, dz) = direction(face_index);
                            assert(face_arithmetic_fits(
                                m,
                                chunk_x as int,
                                chunk_z as int,
                                x as int,
                                y as int,
                                z as int,
                                face_index as int,
                            ));
                            let neighbor_voxel = Self::get_voxel(
                                x + dx,
                                y + dy,
                                z + dz,
                                chunk_x,
                                chunk_z,
                                voxels,
                            );
                            if neighbor_voxel == 0 {
                                let face_verts = Self::get_face_vertices(
                                    face_index,
                                    x + chunk_x * CHUNK_SIZE,
                                    y,
                                    z + chunk_z * CHUNK_SIZE,
                                    current_voxel as u32,
                                );
                                let ghost before_face = vertices@;
                                vertices.push(face_verts[0]);
                                vertices.push(face_verts[1]);
                                vertices.push(face_verts[2]);
                                vertices.push(face_verts[3]);
                                assert(vertices@ =~= before_face + face_verts@);
                                indices.push(vertex_count);
                                indices.push(vertex_count + 1);
                                indices.push(vertex_count + 2);
                                indices.push(vertex_count + 2);
                                indices.push(vertex_count + 3);
                                indices.push(vertex_count);
                                proof {
                                    assert(indices@ =~= quad_indices((q + 1) as nat));
                                    q = q + 1;
                                }
                                vertex_count = vertex_count + 4;
                                assert(vertices@ =~= before_cell + cell_vertices(
                                    m,
                                    chunk_x as int,
                                    chunk_z as int,
                                    x as int,
                                    y as int,
                                    z as int,
                                    (face_index + 1) as nat,
                                ));
                            } else {
                                assert(!face_shown(
                                    m,
                                    chunk_x as int,
                                    chunk_z as int,
                                    x as int,
                                    y as int,
                                    z as int,
                                    face_index as int,
                                ));
                                assert(vertices@ =~= before_cell + cell_vertices(
                                    m,
                                    chunk_x as int,
                                    chunk_z as int,
                                    x as int,
                                    y as int,
                                    z as int,
                                    (face_index + 1) as nat,
                                ));
                            }
                            face_index = face_index + 1;
                        }
                    } else {
                        proof {
                            lemma_air_cell_has_no_faces(
                                m,
                                chunk_x as int,
                                chunk_z as int,
                                x as int,
                                y as int,
                                z as int,
                                6,
                            );
                        }
                        assert(vertices@ =~= before_cell + cell_vertices(
                            m,
                            chunk_x as int,
                            chunk_z as int,
                            x as int,
                            y as int,
                            z as int,
                            6,
                        ));
                    }
                    assert(vertices@ =~= before_row + row_vertices(
                        m,
                        chunk_x as int,
                        chunk_z as int,
                        y as int,
                        z as int,
                        (x + 1) as nat,
                    ));
                    x = x + 1;
                }
                assert(vertices@ =~= before_layer + layer_vertices(
                    m,
                    chunk_x as int,
                    chunk_z as int,
                    z as int,
                    (y + 1) as nat,
                ));
                y = y + 1;
            }
            assert(vertices@ =~= chunk_vertices(m, chunk_x as int, chunk_z as int, (z + 1) as nat));
            z = z + 1;
        }
        proof {
            lemma_quad_indices(q);
        }
        (vertices, indices)
    }
}

} // verus!
