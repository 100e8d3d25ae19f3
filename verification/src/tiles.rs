//! Laying the height grids of a square of chunks side by side.

use vstd::prelude::*;
use vstd::arithmetic::div_mod::lemma_fundamental_div_mod_converse;
use crate::coords::CHUNK_SIZE;

verus! {

/// Samples along one edge of a square of `chunk_count` by `chunk_count`
/// chunks.
pub open spec fn tiled_edge(chunk_count: int) -> int {
    chunk_count * CHUNK_SIZE
}

/// The sample at column `x` and row `z` of the square: the sample of the
/// chunk that covers it, chunks running row by row, or `fill` where the
/// list holds no such chunk or the chunk is too short.
pub open spec fn tiled_sample<T>(
    chunks: Seq<Vec<T>>,
    chunk_count: int,
    fill: T,
    x: int,
    z: int,
) -> T {
    let chunk = (z / (CHUNK_SIZE as int)) * chunk_count + x / (CHUNK_SIZE as int);
    let inside = (z % (CHUNK_SIZE as int)) * CHUNK_SIZE + x % (CHUNK_SIZE as int);
    if chunk < chunks.len() && inside < chunks[chunk]@.len() {
        chunks[chunk]@[inside]
    } else {
        fill
    }
}

/// The samples of the whole square, row by row.
pub open spec fn tiled<T>(chunks: Seq<Vec<T>>, chunk_count: int, fill: T) -> Seq<T> {
    let edge = tiled_edge(chunk_count);
    Seq::new(
        (edge * edge) as nat,
        |p: int| tiled_sample(chunks, chunk_count, fill, p % edge, p / edge),
    )
}

/// Lays the height grids of a square of chunks side by side into one grid.
/// `chunks` lists the chunks row by row, `chunk_count` to a row. Gives
/// nothing where the grid would not fit into memory.
pub fn tile_chunks<T: Copy>(chunks: &Vec<Vec<T>>, chunk_count: usize, fill: T) -> (grid: Option<
    Vec<T>,
>)
    ensures
        grid is Some <==> tiled_edge(chunk_count as int) * tiled_edge(chunk_count as int)
            <= usize::MAX,
        grid matches Some(samples) ==> samples@ == tiled(chunks@, chunk_count as int, fill),
{
    let size: usize = CHUNK_SIZE as usize;
    if chunk_count > 0x800_0000 {
        assert(tiled_edge(chunk_count as int) * tiled_edge(chunk_count as int) > usize::MAX)
            by (nonlinear_arith)
            requires
                tiled_edge(chunk_count as int) > 0x1_0000_0000,
                usize::MAX <= 0xffff_ffff_ffff_ffff,
        ;
        return None;
    }
    let wide: u128 = chunk_count as u128 * 32;
    assert(wide * wide <= 0x1_0000_0000_0000_0000) by (nonlinear_arith)
        requires
            0 <= wide <= 0x1_0000_0000,
    ;
    assert(wide == tiled_edge(chunk_count as int));
    if wide * wide > usize::MAX as u128 {
        return None;
    }
    assert(wide <= wide * wide) by (nonlinear_arith)
        requires
            0 <= wide,
    ;
    let edge: usize = chunk_count * size;
    assert(edge * edge <= usize::MAX);
    let mut samples: Vec<T> = Vec::new();
    let mut z: usize = 0;
    while z < edge
        invariant
            size == CHUNK_SIZE,
            edge == tiled_edge(chunk_count as int),
            edge * edge <= usize::MAX,
            z <= edge,
            samples@.len() == z * edge,
            forall|p: int|
                0 <= p < samples@.len() ==> #[trigger] samples@[p] == tiled_sample(
                    chunks@,
                    chunk_count as int,
                    fill,
                    p % (edge as int),
                    p / (edge as int),
                ),
        decreases edge - z,
    {
        let mut x: usize = 0;
        while x < edge
            invariant
                size == CHUNK_SIZE,
                edge == tiled_edge(chunk_count as int),
                edge * edge <= usize::MAX,
                z < edge,
                x <= edge,
                samples@.len() == z * edge + x,
                forall|p: int|
                    0 <= p < samples@.len() ==> #[trigger] samples@[p] == tiled_sample(
                        chunks@,
                        chunk_count as int,
                        fill,
                        p % (edge as int),
                        p / (edge as int),
                    ),
            decreases edge - x,
        {
            proof {
                lemma_fundamental_div_mod_converse(z * edge + x, edge as int, z as int, x as int);
            }
            samples.push(sample_at(chunks, chunk_count, fill, x, z));
            x += 1;
        }
        assert(z * edge + edge == (z + 1) * edge) by (nonlinear_arith);
        z += 1;
    }
    assert(samples@ =~= tiled(chunks@, chunk_count as int, fill));
    Some(samples)
}

/// Reads the sample at column `x` and row `z` of the square.
fn sample_at<T: Copy>(chunks: &Vec<Vec<T>>, chunk_count: usize, fill: T, x: usize, z: usize) -> (sample:
    T)
    requires
        x < tiled_edge(chunk_count as int),
        z < tiled_edge(chunk_count as int),
        tiled_edge(chunk_count as int) * tiled_edge(chunk_count as int) <= usize::MAX,
    ensures
        sample == tiled_sample(chunks@, chunk_count as int, fill, x as int, z as int),
{
    let size: usize = CHUNK_SIZE as usize;
    let row: usize = z / size;
    let column: usize = x / size;
    assert(row < chunk_count && column < chunk_count);
    assert(row * chunk_count + column < chunk_count * chunk_count) by (nonlinear_arith)
        requires
            0 <= row < chunk_count,
            0 <= column < chunk_count,
    ;
    assert(0 <= row * chunk_count) by (nonlinear_arith)
        requires
            0 <= row,
            0 <= chunk_count,
    ;
    assert(chunk_count * chunk_count <= tiled_edge(chunk_count as int) * tiled_edge(
        chunk_count as int,
    )) by (nonlinear_arith)
        requires
            tiled_edge(chunk_count as int) == chunk_count * 32,
            0 <= chunk_count,
    ;
    let chunk: usize = row * chunk_count + column;
    let inside: usize = (z % size) * size + x % size;
    if chunk < chunks.len() && inside < chunks[chunk].len() {
        chunks[chunk][inside]
    } else {
        fill
    }
}

} // verus!
