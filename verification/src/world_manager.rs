use vstd::prelude::*;

verus! {

/// Smallest chunk x coordinate of the generated world.
#[allow(non_upper_case_globals)]
pub const xmin: i32 = -25;

/// Largest chunk x coordinate of the generated world.
#[allow(non_upper_case_globals)]
pub const xmax: i32 = 25;

/// Smallest chunk z coordinate of the generated world.
#[allow(non_upper_case_globals)]
pub const zmin: i32 = -25;

/// Largest chunk z coordinate of the generated world.
#[allow(non_upper_case_globals)]
pub const zmax: i32 = 25;

/// Number of chunks along the z axis of the generated world: `zmax - zmin + 1`.
pub const WORLD_DEPTH_CHUNKS: usize = 51;

/// Number of chunks in the generated world: `(xmax - xmin + 1) * (zmax - zmin + 1)`.
pub const WORLD_CHUNKS: usize = 2601;

/// The `i`-th chunk of the world in generation order: x from `xmin` to `xmax` in the
/// outer loop, z from `zmin` to `zmax` in the inner one.
pub open spec fn world_chunk_key(i: int) -> (i32, i32) {
    ((xmin + i / WORLD_DEPTH_CHUNKS as int) as i32, (zmin + i % WORLD_DEPTH_CHUNKS as int) as i32)
}

/// Position `i = (x - xmin) * 51 + (z - zmin)` of chunk `(x, z)` in generation order,
/// for `x` in `xmin..=xmax` and `z` in `zmin..=zmax`.
pub proof fn lemma_world_chunk_key(x: int, z: int)
    requires
        xmin <= x <= xmax,
        zmin <= z <= zmax,
    ensures
        0 <= (x - xmin) * WORLD_DEPTH_CHUNKS as int + (z - zmin) < WORLD_CHUNKS,
        world_chunk_key((x - xmin) * WORLD_DEPTH_CHUNKS as int + (z - zmin)) == (x as i32, z as i32),
{
    lemma_div_mod_51(x - xmin, z - zmin);
}

proof fn lemma_div_mod_51(a: int, b: int)
    by (nonlinear_arith)
    requires
        0 <= a < 51,
        0 <= b < 51,
    ensures
        (a * 51 + b) / 51 == a,
        (a * 51 + b) % 51 == b,
        0 <= a * 51 + b < 2601,
{
}

/// Every chunk of the world appears once in generation order: distinct positions give
/// distinct chunks, and each lies within the world's bounds.
pub proof fn lemma_world_chunk_keys_distinct()
    ensures
        forall|i: int|
            0 <= i < WORLD_CHUNKS ==> xmin <= (#[trigger] world_chunk_key(i)).0 <= xmax && zmin
                <= world_chunk_key(i).1 <= zmax,
        forall|i: int, j: int|
            0 <= i < WORLD_CHUNKS && 0 <= j < WORLD_CHUNKS && i != j ==> #[trigger] world_chunk_key(i)
                != #[trigger] world_chunk_key(j),
{
    assert forall|i: int|
        0 <= i < WORLD_CHUNKS implies xmin <= (#[trigger] world_chunk_key(i)).0 <= xmax && zmin
            <= world_chunk_key(i).1 <= zmax by {
        lemma_split_51(i);
    }
    assert forall|i: int, j: int|
        0 <= i < WORLD_CHUNKS && 0 <= j < WORLD_CHUNKS && i != j implies #[trigger] world_chunk_key(i)
            != #[trigger] world_chunk_key(j) by {
        lemma_split_51(i);
        lemma_split_51(j);
    }
}

proof fn lemma_split_51(i: int)
    by (nonlinear_arith)
    requires
        0 <= i < 2601,
    ensures
        0 <= i / 51 < 51,
        0 <= i % 51 < 51,
        i == (i / 51) * 51 + i % 51,
{
}

/// The chunks of the world in generation order: x from `xmin` to `xmax` in the outer
/// loop, z from `zmin` to `zmax` in the inner one.
pub fn world_chunk_coords() -> (coords: Vec<(i32, i32)>)
    ensures
        coords@.len() == WORLD_CHUNKS,
        forall|i: int| 0 <= i < WORLD_CHUNKS ==> #[trigger] coords@[i] == world_chunk_key(i),
{
    let mut coords: Vec<(i32, i32)> = Vec::new();
    let mut x: i32 = xmin;
    while x <= xmax
        invariant
            xmin <= x <= xmax + 1,
            coords@.len() == (x - xmin) * WORLD_DEPTH_CHUNKS as int,
            forall|i: int| 0 <= i < coords@.len() ==> #[trigger] coords@[i] == world_chunk_key(i),
        decreases xmax + 1 - x,
    {
        let mut z: i32 = zmin;
        while z <= zmax
            invariant
                xmin <= x <= xmax,
                zmin <= z <= zmax + 1,
                coords@.len() == (x - xmin) * WORLD_DEPTH_CHUNKS as int + (z - zmin),
                forall|i: int| 0 <= i < coords@.len() ==> #[trigger] coords@[i] == world_chunk_key(i),
            decreases zmax + 1 - z,
        {
            proof {
                lemma_world_chunk_key(x as int, z as int);
            }
            coords.push((x, z));
            z = z + 1;
        }
        x = x + 1;
    }
    coords
}

} // verus!
