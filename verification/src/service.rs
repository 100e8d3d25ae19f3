//! What the server computes when a chunk is requested: the chunk's two rows,
//! from its sampled heights and the vertex rows already stored around it.

use vstd::prelude::*;
use crate::coords::{WorldPos, XZCoords};
use crate::heightmap::{Cell, PaddedHeightmap, PADDED_DIM};
use crate::mesh::{
    lemma_stitched_mesh_is_repeatable, places_as_a_function, rows_consistent,
    snaps_as_a_function, stitched_by, ChunkMesh, ChunkVertex, Mesh, MeshGenerator, SurfaceVertex,
};
use crate::sampling::{
    generate_padded_heightmap, lemma_sampling_is_repeatable, padded_points, sampled_at,
    samples_as_a_function,
};

verus! {

/// `vertex` and `mesh` are the rows of the chunk at `coord`: its heights
/// were sampled by `sample`, its vertices placed by `place` and stitched by
/// `snap` against the rows of `neighborhood`, and the rows carry the chunk's
/// own heights and the buffers of that mesh.
pub open spec fn rows_generated<
    T,
    H: Fn(WorldPos) -> T,
    P: Fn(Cell<T>) -> SurfaceVertex<T>,
    S: Fn([T; 3], [T; 3], i32, i32) -> [T; 3],
>(
    sample: H,
    place: P,
    snap: S,
    coord: XZCoords,
    neighborhood: Seq<ChunkVertex<T>>,
    vertex: ChunkVertex<T>,
    mesh: ChunkMesh,
) -> bool {
    &&& vertex.grid == coord
    &&& vertex.mirrors_grid()
    &&& mesh.grid == coord
    &&& mesh.mirrors_grid()
    &&& exists|padded: PaddedHeightmap<T>, built: Mesh<T>|
        #![trigger stitched_by(place, snap, coord, padded, neighborhood, built)]
        {
            &&& padded.dim() == PADDED_DIM
            &&& sampled_at(sample, padded_points(coord), padded@)
            &&& stitched_by(place, snap, coord, padded, neighborhood, built)
            &&& vertex.heightmap@ == padded.interior()
            &&& vertex.vertices@ == built.vertices@
            &&& vertex.normals@ == built.normals@
            &&& mesh.indices@ == built.indices@
            &&& mesh.materials@ == built.materials@
        }
}

/// Generates the two rows of the chunk at `coord`: samples its padded
/// heights with `sample`, builds its mesh with `place`, stitches it with
/// `snap` to the rows of adjacent chunks among `neighborhood`, and splits
/// the result into the vertex row and the mesh row.
pub fn generate_chunk_rows<
    T: Copy,
    H: Fn(WorldPos) -> T,
    P: Fn(Cell<T>) -> SurfaceVertex<T>,
    S: Fn([T; 3], [T; 3], i32, i32) -> [T; 3],
>(
    generator: &MeshGenerator,
    coord: XZCoords,
    neighborhood: &Vec<ChunkVertex<T>>,
    sample: H,
    place: P,
    snap: S,
) -> (rows: (ChunkVertex<T>, ChunkMesh))
    requires
        forall|pos: WorldPos| call_requires(sample, (pos,)),
        forall|cell: Cell<T>| call_requires(place, (cell,)),
        forall|own: [T; 3], theirs: [T; 3], dx: i32, dz: i32|
            call_requires(snap, (own, theirs, dx, dz)),
    ensures
        rows_generated(sample, place, snap, coord, neighborhood@, rows.0, rows.1),
        rows_consistent(rows.0, rows.1),
{
    let padded = generate_padded_heightmap(coord, sample);
    let built = generator.generate_dual_contour_mesh(coord, &padded, neighborhood, place, snap);
    let heightmap = padded.chunk_only();
    let ghost mesh = built;
    let rows = built.into_rows(coord, heightmap);
    proof {
        assert(stitched_by(place, snap, coord, padded, neighborhood@, mesh));
    }
    rows
}

/// Where sampling, placing and snapping are functions of their arguments,
/// the rows of a chunk are a function of its address and of the rows around
/// it: any two runs for the same chunk with the same neighbour positions
/// write the same rows.
pub proof fn lemma_rows_are_repeatable<
    T,
    H: Fn(WorldPos) -> T,
    P: Fn(Cell<T>) -> SurfaceVertex<T>,
    S: Fn([T; 3], [T; 3], i32, i32) -> [T; 3],
>(
    sample: H,
    place: P,
    snap: S,
    coord: XZCoords,
    first_rows: Seq<ChunkVertex<T>>,
    second_rows: Seq<ChunkVertex<T>>,
    first: (ChunkVertex<T>, ChunkMesh),
    second: (ChunkVertex<T>, ChunkMesh),
)
    requires
        samples_as_a_function(sample),
        places_as_a_function(place),
        snaps_as_a_function(snap),
        first_rows.len() == second_rows.len(),
        forall|n: int|
            0 <= n < first_rows.len() ==> (#[trigger] first_rows[n]).grid == second_rows[n].grid
                && first_rows[n].vertices@ == second_rows[n].vertices@,
        rows_generated(sample, place, snap, coord, first_rows, first.0, first.1),
        rows_generated(sample, place, snap, coord, second_rows, second.0, second.1),
    ensures
        first.0.grid == second.0.grid,
        first.0.grid_x == second.0.grid_x,
        first.0.grid_z == second.0.grid_z,
        first.0.heightmap@ == second.0.heightmap@,
        first.0.vertices@ == second.0.vertices@,
        first.0.normals@ == second.0.normals@,
        first.1.grid == second.1.grid,
        first.1.grid_x == second.1.grid_x,
        first.1.grid_z == second.1.grid_z,
        first.1.indices@ == second.1.indices@,
        first.1.materials@ == second.1.materials@,
{
    let (grid1, mesh1) = choose|padded: PaddedHeightmap<T>, built: Mesh<T>|
        #![trigger stitched_by(place, snap, coord, padded, first_rows, built)]
        {
            &&& padded.dim() == PADDED_DIM
            &&& sampled_at(sample, padded_points(coord), padded@)
            &&& stitched_by(place, snap, coord, padded, first_rows, built)
            &&& first.0.heightmap@ == padded.interior()
            &&& first.0.vertices@ == built.vertices@
            &&& first.0.normals@ == built.normals@
            &&& first.1.indices@ == built.indices@
            &&& first.1.materials@ == built.materials@
        };
    let (grid2, mesh2) = choose|padded: PaddedHeightmap<T>, built: Mesh<T>|
        #![trigger stitched_by(place, snap, coord, padded, second_rows, built)]
        {
            &&& padded.dim() == PADDED_DIM
            &&& sampled_at(sample, padded_points(coord), padded@)
            &&& stitched_by(place, snap, coord, padded, second_rows, built)
            &&& second.0.heightmap@ == padded.interior()
            &&& second.0.vertices@ == built.vertices@
            &&& second.0.normals@ == built.normals@
            &&& second.1.indices@ == built.indices@
            &&& second.1.materials@ == built.materials@
        };
    lemma_sampling_is_repeatable(sample, padded_points(coord), grid1@, grid2@);
    lemma_stitched_mesh_is_repeatable(
        place,
        snap,
        coord,
        grid1,
        grid2,
        first_rows,
        second_rows,
        mesh1,
        mesh2,
    );
}

} // verus!
