//! The world positions at which a chunk's heights are sampled.

use vstd::prelude::*;
use crate::coords::{WorldPos, XZCoords, CHUNK_SIZE};
use crate::heightmap::{interior_of, padded_index, PaddedHeightmap, PADDED_DIM};

verus! {

/// Number of samples in a chunk: `CHUNK_SIZE` squared.
pub const CHUNK_AREA: usize = 1024;

/// Number of samples in a padded chunk grid: `PADDED_DIM` squared.
pub const PADDED_AREA: usize = 1225;

/// World positions of a chunk's own samples, row-major: entry
/// `z * CHUNK_SIZE + x` is the sample `(x, z)`.
pub open spec fn chunk_points(coord: XZCoords) -> Seq<WorldPos> {
    Seq::new(
        CHUNK_AREA as nat,
        |i: int| coord.world_pos(i % (CHUNK_SIZE as int), i / (CHUNK_SIZE as int)),
    )
}

/// World positions of a chunk's padded grid, row-major over the logical
/// coordinates `-1..=CHUNK_SIZE + 1` on both axes.
pub open spec fn padded_points(coord: XZCoords) -> Seq<WorldPos> {
    Seq::new(
        PADDED_AREA as nat,
        |i: int| coord.world_pos(i % (PADDED_DIM as int) - 1, i / (PADDED_DIM as int) - 1),
    )
}

/// `heights` are what `sample` returned for `points`, one by one.
pub open spec fn sampled_at<T, F: Fn(WorldPos) -> T>(
    sample: F,
    points: Seq<WorldPos>,
    heights: Seq<T>,
) -> bool {
    &&& heights.len() == points.len()
    &&& forall|i: int|
        0 <= i < points.len() ==> call_ensures(sample, (points[i],), #[trigger] heights[i])
}

/// What `sample` returns for a world position depends on the position alone.
pub open spec fn samples_as_a_function<T, F: Fn(WorldPos) -> T>(sample: F) -> bool {
    forall|pos: WorldPos, a: T, b: T|
        call_ensures(sample, (pos,), a) && call_ensures(sample, (pos,), b) ==> a == b
}

/// Samples the heights of a chunk: `sample` is asked for the height at each
/// of the chunk's `CHUNK_SIZE` x `CHUNK_SIZE` world positions, row by row.
pub fn generate_chunk<T, F: Fn(WorldPos) -> T>(coord: XZCoords, sample: F) -> (heights: Vec<T>)
    requires
        forall|pos: WorldPos| call_requires(sample, (pos,)),
    ensures
        heights@.len() == CHUNK_AREA,
        sampled_at(sample, chunk_points(coord), heights@),
{
    let mut heights: Vec<T> = Vec::new();
    let mut z: i32 = 0;
    while z < CHUNK_SIZE
        invariant
            forall|pos: WorldPos| call_requires(sample, (pos,)),
            0 <= z <= CHUNK_SIZE,
            heights@.len() == z * CHUNK_SIZE,
            forall|i: int|
                0 <= i < heights@.len() ==> call_ensures(
                    sample,
                    (chunk_points(coord)[i],),
                    #[trigger] heights@[i],
                ),
        decreases CHUNK_SIZE - z,
    {
        let mut x: i32 = 0;
        while x < CHUNK_SIZE
            invariant
                forall|pos: WorldPos| call_requires(sample, (pos,)),
                0 <= z < CHUNK_SIZE,
                0 <= x <= CHUNK_SIZE,
                heights@.len() == z * CHUNK_SIZE + x,
                forall|i: int|
                    0 <= i < heights@.len() ==> call_ensures(
                        sample,
                        (chunk_points(coord)[i],),
                        #[trigger] heights@[i],
                    ),
            decreases CHUNK_SIZE - x,
        {
            let pos = coord.to_world_pos(x, z);
            assert(pos == chunk_points(coord)[z * CHUNK_SIZE + x]);
            heights.push(sample(pos));
            x += 1;
        }
        z += 1;
    }
    heights
}

/// Samples the padded grid of a chunk: `sample` is asked for the height at
/// each world position of the chunk and of the ring around it that gradients
/// at the chunk's edge read.
pub fn generate_padded_heightmap<T, F: Fn(WorldPos) -> T>(coord: XZCoords, sample: F) -> (grid:
    PaddedHeightmap<T>)
    requires
        forall|pos: WorldPos| call_requires(sample, (pos,)),
    ensures
        grid.dim() == PADDED_DIM,
        grid@.len() == PADDED_AREA,
        sampled_at(sample, padded_points(coord), grid@),
{
    let dim: i32 = CHUNK_SIZE + 3;
    let mut heights: Vec<T> = Vec::new();
    let mut v: i32 = 0;
    while v < dim
        invariant
            forall|pos: WorldPos| call_requires(sample, (pos,)),
            dim == PADDED_DIM,
            0 <= v <= dim,
            heights@.len() == v * PADDED_DIM,
            forall|i: int|
                0 <= i < heights@.len() ==> call_ensures(
                    sample,
                    (padded_points(coord)[i],),
                    #[trigger] heights@[i],
                ),
        decreases dim - v,
    {
        let mut u: i32 = 0;
        while u < dim
            invariant
                forall|pos: WorldPos| call_requires(sample, (pos,)),
                dim == PADDED_DIM,
                0 <= v < dim,
                0 <= u <= dim,
                heights@.len() == v * PADDED_DIM + u,
                forall|i: int|
                    0 <= i < heights@.len() ==> call_ensures(
                        sample,
                        (padded_points(coord)[i],),
                        #[trigger] heights@[i],
                    ),
            decreases dim - u,
        {
            let pos = coord.to_world_pos(u - 1, v - 1);
            assert(pos == padded_points(coord)[v * PADDED_DIM + u]);
            heights.push(sample(pos));
            u += 1;
        }
        v += 1;
    }
    PaddedHeightmap::new(heights, CHUNK_SIZE)
}

/// Stripping the padding from a chunk's padded sample grid leaves exactly the
/// chunk's own sample grid, entry for entry.
pub proof fn lemma_padded_interior_is_chunk(coord: XZCoords)
    ensures
        interior_of(padded_points(coord), PADDED_DIM as int) == chunk_points(coord),
{
    let inner = interior_of(padded_points(coord), PADDED_DIM as int);
    assert(inner.len() == chunk_points(coord).len());
    assert forall|i: int| 0 <= i < inner.len() implies inner[i] == chunk_points(coord)[i] by {
        let x = i % 32;
        let z = i / 32;
        let j = padded_index(35, x, z);
        assert(j == (z + 1) * 35 + (x + 1));
        assert(j % 35 == x + 1);
        assert(j / 35 == z + 1);
    }
    assert(inner =~= chunk_points(coord));
}

/// Where the height is a function of the world position, sampling is
/// repeatable: any two lists of heights sampled at the same positions are
/// equal, sample for sample.
pub proof fn lemma_sampling_is_repeatable<T, F: Fn(WorldPos) -> T>(
    sample: F,
    points: Seq<WorldPos>,
    first: Seq<T>,
    second: Seq<T>,
)
    requires
        samples_as_a_function(sample),
        sampled_at(sample, points, first),
        sampled_at(sample, points, second),
    ensures
        first == second,
{
    assert forall|i: int| 0 <= i < points.len() implies first[i] == second[i] by {
        assert(call_ensures(sample, (points[i],), first[i]));
        assert(call_ensures(sample, (points[i],), second[i]));
    }
    assert(first =~= second);
}

/// Where the height is a function of the world position, the padded grid
/// sampled for a chunk, stripped of its padding, is the grid of heights
/// sampled for the chunk itself, entry for entry.
pub proof fn lemma_sampled_interior_is_sampled_chunk<T, F: Fn(WorldPos) -> T>(
    sample: F,
    coord: XZCoords,
    padded: Seq<T>,
    chunk: Seq<T>,
)
    requires
        samples_as_a_function(sample),
        sampled_at(sample, padded_points(coord), padded),
        sampled_at(sample, chunk_points(coord), chunk),
    ensures
        interior_of(padded, PADDED_DIM as int) == chunk,
        chunk.len() == CHUNK_AREA,
{
    lemma_padded_interior_is_chunk(coord);
    let points = interior_of(padded_points(coord), PADDED_DIM as int);
    let inner = interior_of(padded, PADDED_DIM as int);
    assert forall|i: int| 0 <= i < inner.len() implies inner[i] == chunk[i] by {
        let j = padded_index(35, i % 32, i / 32);
        assert(0 <= j < 1225);
        assert(points[i] == padded_points(coord)[j]);
        assert(points[i] == chunk_points(coord)[i]);
        assert(call_ensures(sample, (padded_points(coord)[j],), padded[j]));
        assert(call_ensures(sample, (chunk_points(coord)[i],), chunk[i]));
    }
    assert(inner =~= chunk);
}

/// Where the height is a function of the world position, the padded grids
/// of a chunk and of its neighbour to the east agree on the three columns
/// around their seam: column `CHUNK_SIZE + i` of the western grid is column
/// `i` of the eastern grid, for `i` from -1 to 1 and every row.
pub proof fn lemma_sampled_seam_columns_agree<T, F: Fn(WorldPos) -> T>(
    sample: F,
    west: XZCoords,
    east: XZCoords,
    west_grid: Seq<T>,
    east_grid: Seq<T>,
    i: int,
    z: int,
)
    requires
        samples_as_a_function(sample),
        east.x == west.x + 1,
        east.z == west.z,
        sampled_at(sample, padded_points(west), west_grid),
        sampled_at(sample, padded_points(east), east_grid),
        -1 <= i <= 1,
        -1 <= z <= CHUNK_SIZE + 1,
    ensures
        west_grid[padded_index(PADDED_DIM as int, CHUNK_SIZE + i, z)] == east_grid[padded_index(
            PADDED_DIM as int,
            i,
            z,
        )],
{
    let w = padded_index(35, 32 + i, z);
    let e = padded_index(35, i, z);
    assert(w == (z + 1) * 35 + (33 + i));
    assert(e == (z + 1) * 35 + (i + 1));
    assert(w % 35 == 33 + i && w / 35 == z + 1);
    assert(e % 35 == i + 1 && e / 35 == z + 1);
    assert(0 <= w < 1225 && 0 <= e < 1225);
    assert(padded_points(west)[w] == padded_points(east)[e]);
    assert(call_ensures(sample, (padded_points(west)[w],), west_grid[w]));
    assert(call_ensures(sample, (padded_points(east)[e],), east_grid[e]));
}

/// For heights that depend on the world position alone, stripping the
/// padding from a chunk's padded height grid leaves exactly the chunk's own
/// height grid.
pub proof fn lemma_padded_heights_interior_is_chunk<T>(
    coord: XZCoords,
    height: spec_fn(WorldPos) -> T,
)
    ensures
        interior_of(padded_points(coord).map_values(height), PADDED_DIM as int) == chunk_points(
            coord,
        ).map_values(height),
{
    lemma_padded_interior_is_chunk(coord);
    let points = interior_of(padded_points(coord), PADDED_DIM as int);
    let heights = interior_of(padded_points(coord).map_values(height), PADDED_DIM as int);
    assert forall|i: int| 0 <= i < heights.len() implies heights[i] == height(points[i]) by {
        let j = padded_index(35, i % 32, i / 32);
        assert(0 <= j < 1225);
    }
    assert(heights =~= chunk_points(coord).map_values(height));
}

/// A sample addressed relative to one chunk is the same world position when
/// it is addressed relative to any other chunk with the local coordinates
/// shifted by the distance between the two chunks.
pub proof fn lemma_world_pos_across_chunks(a: XZCoords, b: XZCoords, local_x: int, local_z: int)
    ensures
        a.world_pos(local_x, local_z) == b.world_pos(
            local_x - (b.x - a.x) * CHUNK_SIZE,
            local_z - (b.z - a.z) * CHUNK_SIZE,
        ),
{
}

/// Along the seam between a chunk and its neighbour to the east, the padded
/// column just past the chunk's last own column is the neighbour's first own
/// column, and the two chunks' facing own columns are one lattice step apart.
pub proof fn lemma_east_seam(west: XZCoords, east: XZCoords, z: int)
    requires
        east.x == west.x + 1,
        east.z == west.z,
        0 <= z < CHUNK_SIZE,
    ensures
        padded_points(west)[padded_index(PADDED_DIM as int, CHUNK_SIZE as int, z)]
            == chunk_points(east)[z * CHUNK_SIZE],
        chunk_points(west)[z * CHUNK_SIZE + (CHUNK_SIZE - 1)].x + 1
            == chunk_points(east)[z * CHUNK_SIZE].x,
        chunk_points(west)[z * CHUNK_SIZE + (CHUNK_SIZE - 1)].z
            == chunk_points(east)[z * CHUNK_SIZE].z,
{
    let j = padded_index(35, 32, z);
    assert(j == (z + 1) * 35 + 33);
    assert(j % 35 == 33);
    assert(j / 35 == z + 1);
    assert((z * 32) % 32 == 0);
    assert((z * 32) / 32 == z);
    assert((z * 32 + 31) % 32 == 31);
    assert((z * 32 + 31) / 32 == z);
}

/// Along the seam between a chunk and its neighbour to the south (larger z),
/// the padded row just past the chunk's last own row is the neighbour's first
/// own row.
pub proof fn lemma_south_seam(north: XZCoords, south: XZCoords, x: int)
    requires
        south.x == north.x,
        south.z == north.z + 1,
        0 <= x < CHUNK_SIZE,
    ensures
        padded_points(north)[padded_index(PADDED_DIM as int, x, CHUNK_SIZE as int)]
            == chunk_points(south)[x],
{
    let j = padded_index(35, x, 32);
    assert(j == 33 * 35 + (x + 1));
    assert(j % 35 == x + 1);
    assert(j / 35 == 33);
    assert(x % 32 == x);
    assert(x / 32 == 0);
}

} // verus!
