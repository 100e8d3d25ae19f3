//! Topology of a chunk's surface mesh: one vertex per grid cell, one quad per
//! block of four neighbouring cells, and the row that carries the index buffer.

use vstd::prelude::*;
use crate::coords::{MaterialId, XZCoords, CHUNK_SIZE};
use crate::heightmap::{lemma_flat_grid_cells, Cell, PaddedHeightmap};
use crate::sampling::CHUNK_AREA;

verus! {

/// Cells along one edge of the mesh grid: `CHUNK_SIZE + 1`.
pub const GRID_DIM: usize = 33;

/// Vertices of a chunk mesh: one per cell, `GRID_DIM` squared.
pub const VERTEX_COUNT: usize = 1089;

/// Quads of a chunk mesh: `CHUNK_SIZE` squared.
pub const QUAD_COUNT: usize = 1024;

/// Triangles of a chunk mesh: two per quad.
pub const TRIANGLE_COUNT: usize = 2048;

/// Entries of a chunk's index buffer: three per triangle.
pub const INDEX_COUNT: usize = 6144;

/// The material every vertex carries.
pub const GRASS: MaterialId = 0;

/// Index of the vertex that cell `(x, z)` emits. Cells emit row by row.
pub open spec fn cell_vertex(x: int, z: int) -> int {
    z * (GRID_DIM as int) + x
}

/// Column of the cell that emitted vertex `v`.
pub open spec fn vertex_cell_x(v: int) -> int {
    v % (GRID_DIM as int)
}

/// Row of the cell that emitted vertex `v`.
pub open spec fn vertex_cell_z(v: int) -> int {
    v / (GRID_DIM as int)
}

/// Offset, within the 2x2 block of cells of a quad, of the cell whose vertex
/// stands at position `k` of the quad's six indices. The quad with corners
/// `v00, v10, v11, v01` is cut into `(v00, v11, v10)` and `(v00, v01, v11)`.
pub open spec fn quad_corner(k: int) -> (int, int) {
    if k == 0 || k == 3 {
        (0, 0)
    } else if k == 1 || k == 5 {
        (1, 1)
    } else if k == 2 {
        (1, 0)
    } else {
        (0, 1)
    }
}

/// Entry `i` of the index buffer: quads run row by row over the cells
/// `0..CHUNK_SIZE` on both axes, six entries each.
pub open spec fn quad_index(i: int) -> int {
    let quad = i / 6;
    let corner = quad_corner(i % 6);
    cell_vertex(
        quad % (CHUNK_SIZE as int) + corner.0,
        quad / (CHUNK_SIZE as int) + corner.1,
    )
}

/// The index buffer of a chunk mesh.
pub open spec fn quad_indices() -> Seq<u32> {
    Seq::new(INDEX_COUNT as nat, |i: int| quad_index(i) as u32)
}

/// An index buffer is a list of triangles over `vertex_count` vertices.
pub open spec fn faces_valid(indices: Seq<u32>, vertex_count: int) -> bool {
    &&& indices.len() % 3 == 0
    &&& forall|i: int| 0 <= i < indices.len() ==> indices[i] < vertex_count
}

/// Y component of the cross product `(b - a) x (c - a)` of three lattice
/// points given as `(x, z)` pairs: positive when the triangle `a, b, c`
/// faces up.
pub open spec fn lattice_cross_y(a: (int, int), b: (int, int), c: (int, int)) -> int {
    (b.1 - a.1) * (c.0 - a.0) - (b.0 - a.0) * (c.1 - a.1)
}

/// Cell of a vertex as an `(x, z)` pair.
pub open spec fn vertex_cell(v: int) -> (int, int) {
    (vertex_cell_x(v), vertex_cell_z(v))
}

/// The cell of a neighbouring chunk, `offset_x` and `offset_z` chunks away,
/// that stands on the same lattice point as this chunk's cell `(x, z)`.
pub open spec fn seam_cell(offset_x: int, offset_z: int, x: int, z: int) -> (int, int) {
    (x - offset_x * CHUNK_SIZE, z - offset_z * CHUNK_SIZE)
}

/// The neighbour is another chunk, and both chunks have a cell on the
/// lattice point of this chunk's cell `(x, z)`.
pub open spec fn on_seam(offset_x: int, offset_z: int, x: int, z: int) -> bool {
    let other = seam_cell(offset_x, offset_z, x, z);
    &&& offset_x != 0 || offset_z != 0
    &&& 0 <= x <= CHUNK_SIZE
    &&& 0 <= z <= CHUNK_SIZE
    &&& 0 <= other.0 <= CHUNK_SIZE
    &&& 0 <= other.1 <= CHUNK_SIZE
}

/// What is placed for one cell: where its vertex lies, in chunk-local
/// coordinates, and which way the surface faces there.
#[derive(Clone, Copy, Debug)]
pub struct SurfaceVertex<T> {
    pub position: [T; 3],
    pub normal: [T; 3],
}

/// A surface mesh with flat buffers: three position components and three
/// normal components per vertex, three indices per triangle, one material
/// per vertex.
pub struct Mesh<T> {
    pub id: u64,
    pub vertices: Vec<T>,
    pub indices: Vec<u32>,
    pub normals: Vec<T>,
    pub materials: Vec<u32>,
}

/// The vertex row of a chunk: its own heights, and the positions and normals
/// of its mesh, with the chunk address mirrored into two plain columns.
pub struct ChunkVertex<T> {
    pub grid: XZCoords,
    pub grid_x: i32,
    pub grid_z: i32,
    pub heightmap: Vec<T>,
    pub vertices: Vec<T>,
    pub normals: Vec<T>,
}

/// The flat buffers hold the components of `records`, vertex by vertex.
pub open spec fn holds_records<T>(
    vertices: Seq<T>,
    normals: Seq<T>,
    records: Seq<SurfaceVertex<T>>,
) -> bool {
    &&& vertices.len() == 3 * records.len()
    &&& normals.len() == 3 * records.len()
    &&& forall|j: int|
        0 <= j < 3 * records.len() ==> #[trigger] vertices[j] == records[j / 3].position@[j % 3]
    &&& forall|j: int|
        0 <= j < 3 * records.len() ==> #[trigger] normals[j] == records[j / 3].normal@[j % 3]
}

/// `records` are what `place` returned for the cells of the grid, row by
/// row.
pub open spec fn placed_by<T, F: Fn(Cell<T>) -> SurfaceVertex<T>>(
    place: F,
    padded: PaddedHeightmap<T>,
    records: Seq<SurfaceVertex<T>>,
) -> bool {
    &&& records.len() == VERTEX_COUNT
    &&& forall|i: int|
        0 <= i < VERTEX_COUNT ==> call_ensures(
            place,
            (padded.cell_at(vertex_cell_x(i), vertex_cell_z(i)),),
            #[trigger] records[i],
        )
}

/// Index, in a neighbouring chunk's vertex list, of the vertex on the same
/// lattice point as this chunk's vertex `i`.
pub open spec fn partner_of(offset_x: int, offset_z: int, i: int) -> int {
    let other = seam_cell(offset_x, offset_z, vertex_cell_x(i), vertex_cell_z(i));
    cell_vertex(other.0, other.1)
}

/// Vertex `i` of this chunk is stitched against the neighbour: the two
/// chunks share its lattice point and both buffers hold the positions.
pub open spec fn stitched(
    offset_x: int,
    offset_z: int,
    own_len: int,
    neighbor_len: int,
    i: int,
) -> bool {
    &&& 0 <= i < VERTEX_COUNT
    &&& on_seam(offset_x, offset_z, vertex_cell_x(i), vertex_cell_z(i))
    &&& 3 * i + 3 <= own_len
    &&& 3 * partner_of(offset_x, offset_z, i) + 3 <= neighbor_len
}

/// `triple` holds the three components of vertex `i` of `buffer`.
pub open spec fn reads<T>(buffer: Seq<T>, i: int, triple: [T; 3]) -> bool {
    &&& triple@[0] == buffer[3 * i]
    &&& triple@[1] == buffer[3 * i + 1]
    &&& triple@[2] == buffer[3 * i + 2]
}

/// Vertex `i` of `after` is what `snap` made of vertex `i` of `before` and
/// vertex `partner` of `neighbor`, a chunk `offset_x` and `offset_z` chunks
/// away.
pub open spec fn snapped<T, S: Fn([T; 3], [T; 3], i32, i32) -> [T; 3]>(
    snap: S,
    offset_x: i32,
    offset_z: i32,
    before: Seq<T>,
    neighbor: Seq<T>,
    after: Seq<T>,
    i: int,
    partner: int,
) -> bool {
    exists|own: [T; 3], theirs: [T; 3], moved: [T; 3]|
        reads(before, i, own) && reads(neighbor, partner, theirs) && reads(after, i, moved)
            && #[trigger] call_ensures(snap, (own, theirs, offset_x, offset_z), moved)
}

/// `after` is `before` stitched against the positions `neighbor` of a chunk
/// `offset_x` and `offset_z` chunks away: every vertex on a lattice point
/// that the two chunks share is what `snap` made of the two positions, and
/// every other component is as it was.
pub open spec fn stitched_against<T, S: Fn([T; 3], [T; 3], i32, i32) -> [T; 3]>(
    snap: S,
    offset_x: i32,
    offset_z: i32,
    before: Seq<T>,
    neighbor: Seq<T>,
    after: Seq<T>,
) -> bool {
    &&& after.len() == before.len()
    &&& forall|i: int|
        #![trigger stitched(offset_x as int, offset_z as int, before.len() as int, neighbor.len() as int, i)]
        stitched(offset_x as int, offset_z as int, before.len() as int, neighbor.len() as int, i)
            ==> snapped(
            snap,
            offset_x,
            offset_z,
            before,
            neighbor,
            after,
            i,
            partner_of(offset_x as int, offset_z as int, i),
        )
    &&& forall|j: int|
        0 <= j < before.len() && !stitched(
            offset_x as int,
            offset_z as int,
            before.len() as int,
            neighbor.len() as int,
            j / 3,
        ) ==> #[trigger] after[j] == before[j]
}

/// `after` is `before` stitched against one row of the neighbourhood of the
/// chunk at `coord`: against the row's positions where the row belongs to
/// an adjacent chunk, and unchanged otherwise.
pub open spec fn stitched_to_row<T, S: Fn([T; 3], [T; 3], i32, i32) -> [T; 3]>(
    snap: S,
    coord: XZCoords,
    row: ChunkVertex<T>,
    before: Seq<T>,
    after: Seq<T>,
) -> bool {
    if coord.adjacent(row.grid) {
        stitched_against(
            snap,
            (row.grid.x - coord.x) as i32,
            (row.grid.z - coord.z) as i32,
            before,
            row.vertices@,
            after,
        )
    } else {
        after == before
    }
}

/// `stages` are the positions of a chunk's mesh as they pass through the
/// rows of `neighborhood`: they start as `start`, and each row makes the
/// next stage of the one before.
pub open spec fn stitched_through<T, S: Fn([T; 3], [T; 3], i32, i32) -> [T; 3]>(
    snap: S,
    coord: XZCoords,
    neighborhood: Seq<ChunkVertex<T>>,
    start: Seq<T>,
    stages: Seq<Seq<T>>,
) -> bool {
    &&& stages.len() == neighborhood.len() + 1
    &&& stages[0] == start
    &&& forall|n: int|
        0 <= n < neighborhood.len() ==> stitched_to_row(
            snap,
            coord,
            #[trigger] neighborhood[n],
            stages[n],
            stages[n + 1],
        )
}

/// Vertex `i` of the chunk at `coord` stands on a lattice point that the
/// chunk shares with an adjacent chunk among the first `count` rows of
/// `neighborhood`.
pub open spec fn seamed<T>(
    coord: XZCoords,
    neighborhood: Seq<ChunkVertex<T>>,
    count: int,
    i: int,
) -> bool {
    exists|n: int|
        0 <= n < count && coord.adjacent((#[trigger] neighborhood[n]).grid) && on_seam(
            neighborhood[n].grid.x - coord.x,
            neighborhood[n].grid.z - coord.z,
            vertex_cell_x(i),
            vertex_cell_z(i),
        )
}

/// `mesh` is the mesh of the chunk at `coord`: its vertices were placed by
/// `place` on the grid `padded` and then stitched by `snap` against the rows
/// of `neighborhood`, in order. The normals are those that `place` returned,
/// and so is every position off the seams to adjacent chunks.
pub open spec fn stitched_by<
    T,
    P: Fn(Cell<T>) -> SurfaceVertex<T>,
    S: Fn([T; 3], [T; 3], i32, i32) -> [T; 3],
>(
    place: P,
    snap: S,
    coord: XZCoords,
    padded: PaddedHeightmap<T>,
    neighborhood: Seq<ChunkVertex<T>>,
    mesh: Mesh<T>,
) -> bool {
    &&& mesh.id == 0
    &&& exists|records: Seq<SurfaceVertex<T>>, stages: Seq<Seq<T>>|
        #![trigger placed_by(place, padded, records), stitched_through(snap, coord, neighborhood, stages[0], stages)]
        {
            let placed = stages[0];
            &&& placed_by(place, padded, records)
            &&& holds_records(placed, mesh.normals@, records)
            &&& stitched_through(snap, coord, neighborhood, placed, stages)
            &&& stages.last() == mesh.vertices@
            &&& mesh.vertices@.len() == placed.len()
            &&& forall|j: int|
                0 <= j < placed.len() && !seamed(
                    coord,
                    neighborhood,
                    neighborhood.len() as int,
                    j / 3,
                ) ==> #[trigger] mesh.vertices@[j] == records[j / 3].position@[j % 3]
        }
    &&& mesh.indices@ == quad_indices()
    &&& mesh.materials@ == Seq::new(VERTEX_COUNT as nat, |i: int| GRASS)
}

/// `mesh` is a mesh of the grid `padded` with its vertices placed by
/// `place`: the buffers hold what `place` returned for each cell, the
/// triangles are those of the quads, and every vertex is grass.
pub open spec fn built_by<T, F: Fn(Cell<T>) -> SurfaceVertex<T>>(
    place: F,
    padded: PaddedHeightmap<T>,
    mesh: Mesh<T>,
) -> bool {
    &&& mesh.id == 0
    &&& exists|records: Seq<SurfaceVertex<T>>| #[trigger]
        placed_by(place, padded, records) && holds_records(
            mesh.vertices@,
            mesh.normals@,
            records,
        )
    &&& mesh.indices@ == quad_indices()
    &&& mesh.materials@ == Seq::new(VERTEX_COUNT as nat, |i: int| GRASS)
}

/// Positions and normals pair up as whole triples, every triangle names
/// existing vertices, and every vertex has a material.
pub open spec fn buffers_consistent(
    vertices_len: int,
    normals_len: int,
    indices: Seq<u32>,
    materials_len: int,
) -> bool {
    &&& vertices_len == normals_len
    &&& vertices_len % 3 == 0
    &&& materials_len == vertices_len / 3
    &&& faces_valid(indices, vertices_len / 3)
}

/// The mesh row of a chunk: its triangles and the material of each vertex,
/// with the chunk address mirrored into two plain columns.
#[derive(Clone, Debug)]
pub struct ChunkMesh {
    pub grid: XZCoords,
    pub grid_x: i32,
    pub grid_z: i32,
    pub indices: Vec<u32>,
    pub materials: Vec<u32>,
}

/// The two rows of a chunk agree with each other: they carry the same
/// address, the height grid covers the chunk, and the buffers of the mesh
/// fit together.
pub open spec fn rows_consistent<T>(vertex: ChunkVertex<T>, mesh: ChunkMesh) -> bool {
    &&& vertex.grid == mesh.grid
    &&& vertex.heightmap@.len() == CHUNK_AREA
    &&& buffers_consistent(
        vertex.vertices@.len() as int,
        vertex.normals@.len() as int,
        mesh.indices@,
        mesh.materials@.len() as int,
    )
}

impl<T> Mesh<T> {
    /// The buffers of the mesh fit together.
    pub open spec fn consistent(&self) -> bool {
        buffers_consistent(
            self.vertices@.len() as int,
            self.normals@.len() as int,
            self.indices@,
            self.materials@.len() as int,
        )
    }

    /// Splits the mesh into the two rows that are stored for the chunk at
    /// `grid`, whose own heights are `heightmap`.
    pub fn into_rows(self, grid: XZCoords, heightmap: Vec<T>) -> (rows: (ChunkVertex<T>, ChunkMesh))
        ensures
            rows.0.grid == grid,
            rows.0.mirrors_grid(),
            rows.0.heightmap == heightmap,
            rows.0.vertices == self.vertices,
            rows.0.normals == self.normals,
            rows.1.grid == grid,
            rows.1.mirrors_grid(),
            rows.1.indices == self.indices,
            rows.1.materials == self.materials,
            rows_consistent(rows.0, rows.1) <==> self.consistent() && heightmap@.len()
                == CHUNK_AREA,
    {
        let vertex = ChunkVertex::new(grid, heightmap, self.vertices, self.normals);
        let mesh = ChunkMesh::new(grid, self.indices, self.materials);
        (vertex, mesh)
    }
}

impl<T> ChunkVertex<T> {
    /// The mirrored columns repeat the chunk address.
    pub open spec fn mirrors_grid(&self) -> bool {
        self.grid_x == self.grid.x && self.grid_z == self.grid.z
    }

    /// Builds the row for `grid`, filling the mirrored columns.
    pub fn new(grid: XZCoords, heightmap: Vec<T>, vertices: Vec<T>, normals: Vec<T>) -> (row: Self)
        ensures
            row.grid == grid,
            row.mirrors_grid(),
            row.heightmap == heightmap,
            row.vertices == vertices,
            row.normals == normals,
    {
        ChunkVertex { grid, grid_x: grid.x, grid_z: grid.z, heightmap, vertices, normals }
    }
}

impl ChunkMesh {
    /// The mirrored columns repeat the chunk address.
    pub open spec fn mirrors_grid(&self) -> bool {
        self.grid_x == self.grid.x && self.grid_z == self.grid.z
    }

    /// Builds the row for `grid`, filling the mirrored columns.
    pub fn new(grid: XZCoords, indices: Vec<u32>, materials: Vec<u32>) -> (row: Self)
        ensures
            row.grid == grid,
            row.mirrors_grid(),
            row.indices == indices,
            row.materials == materials,
    {
        ChunkMesh { grid, grid_x: grid.x, grid_z: grid.z, indices, materials }
    }

    /// Checks this row against the vertex row it is paired with.
    pub fn is_consistent_with<T>(&self, vertex: &ChunkVertex<T>) -> (ok: bool)
        ensures
            ok == rows_consistent(*vertex, *self),
    {
        if !(vertex.grid == self.grid) || vertex.heightmap.len() != CHUNK_AREA
            || vertex.vertices.len() != vertex.normals.len() || vertex.vertices.len() % 3 != 0 {
            return false;
        }
        let vertex_count: usize = vertex.vertices.len() / 3;
        if self.materials.len() != vertex_count || self.indices.len() % 3 != 0 {
            return false;
        }
        let mut i: usize = 0;
        while i < self.indices.len()
            invariant
                vertex.grid == self.grid,
                vertex.heightmap@.len() == CHUNK_AREA,
                vertex.vertices@.len() == vertex.normals@.len(),
                vertex.vertices@.len() % 3 == 0,
                vertex_count == vertex.vertices@.len() / 3,
                self.materials@.len() == vertex_count,
                self.indices@.len() % 3 == 0,
                i <= self.indices@.len(),
                forall|j: int| 0 <= j < i ==> self.indices@[j] < vertex_count,
            decreases self.indices@.len() - i,
        {
            if self.indices[i] as usize >= vertex_count {
                assert(!(self.indices@[i as int] < vertex.vertices@.len() / 3));
                return false;
            }
            i += 1;
        }
        true
    }
}

/// Builds the index and material buffers of chunk meshes.
pub struct MeshGenerator {}

impl MeshGenerator {
    pub fn new() -> (generator: Self)
        ensures
            generator == (MeshGenerator {  }),
    {
        MeshGenerator {  }
    }

    /// Index of the vertex of cell `(x, z)`, for cells of the mesh grid.
    pub fn cell_vertex_index(&self, x: usize, z: usize) -> (index: Option<u32>)
        ensures
            index is Some <==> x < GRID_DIM && z < GRID_DIM,
            index matches Some(v) ==> v == cell_vertex(x as int, z as int) && v < VERTEX_COUNT,
    {
        if x < GRID_DIM && z < GRID_DIM {
            Some((z * GRID_DIM + x) as u32)
        } else {
            None
        }
    }

    /// Index, in a neighbouring chunk's vertex list, of the vertex that stands
    /// on the same lattice point as this chunk's cell `(x, z)`. The neighbour
    /// lies `offset_x` and `offset_z` chunks away.
    pub fn seam_partner(&self, offset_x: i32, offset_z: i32, x: usize, z: usize) -> (partner:
        Option<u32>)
        ensures
            partner is Some <==> on_seam(offset_x as int, offset_z as int, x as int, z as int),
            partner matches Some(v) ==> v == cell_vertex(
                seam_cell(offset_x as int, offset_z as int, x as int, z as int).0,
                seam_cell(offset_x as int, offset_z as int, x as int, z as int).1,
            ) && v < VERTEX_COUNT,
    {
        if x >= GRID_DIM || z >= GRID_DIM || (offset_x == 0 && offset_z == 0) {
            return None;
        }
        let size: i64 = CHUNK_SIZE as i64;
        let other_x: i64 = x as i64 - offset_x as i64 * size;
        let other_z: i64 = z as i64 - offset_z as i64 * size;
        if 0 <= other_x && other_x <= size && 0 <= other_z && other_z <= size {
            let dim: i64 = GRID_DIM as i64;
            assert(0 <= other_z * dim <= 1056) by (nonlinear_arith)
                requires
                    0 <= other_z <= 32,
                    dim == 33,
            ;
            Some((other_z * dim + other_x) as u32)
        } else {
            None
        }
    }

    /// Stitches this chunk's positions to those a neighbouring chunk already
    /// holds. The neighbour lies `offset_x` and `offset_z` chunks away and
    /// `neighbor` is its position buffer. For every lattice point that the
    /// two chunks share, `snap` is handed this chunk's position, the
    /// neighbour's, each in its own chunk's coordinates, and the offset, and
    /// returns the position this chunk keeps. All other positions stay as
    /// they are.
    pub fn stitch<T: Copy, S: Fn([T; 3], [T; 3], i32, i32) -> [T; 3]>(
        &self,
        vertices: &mut Vec<T>,
        offset_x: i32,
        offset_z: i32,
        neighbor: &Vec<T>,
        snap: &S,
    )
        requires
            forall|own: [T; 3], theirs: [T; 3], dx: i32, dz: i32|
                call_requires(*snap, (own, theirs, dx, dz)),
        ensures
            stitched_against(
                *snap,
                offset_x,
                offset_z,
                old(vertices)@,
                neighbor@,
                final(vertices)@,
            ),
    {
        let ghost ox = offset_x as int;
        let ghost oz = offset_z as int;
        let ghost len = vertices@.len() as int;
        let ghost other_len = neighbor@.len() as int;
        let ghost before = vertices@;
        let mut z: usize = 0;
        while z < GRID_DIM
            invariant
                forall|own: [T; 3], theirs: [T; 3], dx: i32, dz: i32|
                    call_requires(*snap, (own, theirs, dx, dz)),
                ox == offset_x,
                oz == offset_z,
                len == before.len(),
                other_len == neighbor@.len(),
                z <= GRID_DIM,
                vertices@.len() == len,
                forall|i: int|
                    #![trigger stitched(ox, oz, len, other_len, i)]
                    0 <= i < z * GRID_DIM && stitched(ox, oz, len, other_len, i) ==> snapped(*snap, offset_x, offset_z,
                        before,
                        neighbor@,
                        vertices@,
                        i,
                        partner_of(ox, oz, i),
                    ),
                forall|j: int|
                    0 <= j < len && (j / 3 >= z * GRID_DIM || !stitched(
                        ox,
                        oz,
                        len,
                        other_len,
                        j / 3,
                    )) ==> #[trigger] vertices@[j] == before[j],
            decreases GRID_DIM - z,
        {
            let mut x: usize = 0;
            while x < GRID_DIM
                invariant
                    forall|own: [T; 3], theirs: [T; 3], dx: i32, dz: i32|
                    call_requires(*snap, (own, theirs, dx, dz)),
                    ox == offset_x,
                    oz == offset_z,
                    len == before.len(),
                    other_len == neighbor@.len(),
                    z < GRID_DIM,
                    x <= GRID_DIM,
                    vertices@.len() == len,
                    forall|i: int|
                        #![trigger stitched(ox, oz, len, other_len, i)]
                        0 <= i < z * GRID_DIM + x && stitched(ox, oz, len, other_len, i)
                            ==> snapped(*snap, offset_x, offset_z,
                            before,
                            neighbor@,
                            vertices@,
                            i,
                            partner_of(ox, oz, i),
                        ),
                    forall|j: int|
                        0 <= j < len && (j / 3 >= z * GRID_DIM + x || !stitched(
                            ox,
                            oz,
                            len,
                            other_len,
                            j / 3,
                        )) ==> #[trigger] vertices@[j] == before[j],
                decreases GRID_DIM - x,
            {
                let cell: usize = z * GRID_DIM + x;
                proof {
                    lemma_cell_of_vertex(x as int, z as int);
                }
                let ghost entry = vertices@;
                let mut moved_here: bool = false;
                match self.seam_partner(offset_x, offset_z, x, z) {
                    Some(partner) => {
                        let at: usize = 3 * cell;
                        let from: usize = 3 * (partner as usize);
                        if at + 3 <= vertices.len() && from + 3 <= neighbor.len() {
                            let own: [T; 3] = [vertices[at], vertices[at + 1], vertices[at + 2]];
                            let theirs: [T; 3] = [
                                neighbor[from],
                                neighbor[from + 1],
                                neighbor[from + 2],
                            ];
                            let moved: [T; 3] = snap(own, theirs, offset_x, offset_z);
                            vertices.set(at, moved[0]);
                            vertices.set(at + 1, moved[1]);
                            vertices.set(at + 2, moved[2]);
                            moved_here = true;
                            proof {
                                assert(stitched(ox, oz, len, other_len, cell as int));
                                assert(reads(before, cell as int, own));
                                assert(reads(neighbor@, partner as int, theirs));
                                assert(reads(vertices@, cell as int, moved));
                                assert(call_ensures(*snap, (own, theirs, offset_x, offset_z), moved));
                                assert(snapped(*snap, offset_x, offset_z,
                                    before,
                                    neighbor@,
                                    vertices@,
                                    cell as int,
                                    partner_of(ox, oz, cell as int),
                                ));
                            }
                        }
                    },
                    None => {},
                }
                proof {
                    assert(moved_here == stitched(ox, oz, len, other_len, cell as int));
                    assert forall|i: int|
                        #![trigger stitched(ox, oz, len, other_len, i)]
                        0 <= i < cell + 1 && stitched(ox, oz, len, other_len, i) implies snapped(*snap, offset_x, offset_z,
                        before,
                        neighbor@,
                        vertices@,
                        i,
                        partner_of(ox, oz, i),
                    ) by {
                        if i < cell {
                            let p = partner_of(ox, oz, i);
                            assert(snapped(*snap, offset_x, offset_z, before, neighbor@, entry, i, p));
                            let (own, theirs, moved) = choose|
                                own: [T; 3],
                                theirs: [T; 3],
                                moved: [T; 3],
                            |
                                reads(before, i, own) && reads(neighbor@, p, theirs) && reads(
                                    entry,
                                    i,
                                    moved,
                                ) && #[trigger] call_ensures(
                                    *snap,
                                    (own, theirs, offset_x, offset_z),
                                    moved,
                                );
                            assert(vertices@[3 * i] == entry[3 * i]);
                            assert(vertices@[3 * i + 1] == entry[3 * i + 1]);
                            assert(vertices@[3 * i + 2] == entry[3 * i + 2]);
                            assert(reads(vertices@, i, moved));
                        }
                    }
                    assert forall|j: int|
                        0 <= j < len && (j / 3 >= cell + 1 || !stitched(
                            ox,
                            oz,
                            len,
                            other_len,
                            j / 3,
                        )) implies #[trigger] vertices@[j] == before[j] by {
                        assert(entry[j] == before[j]);
                    }
                }
                x += 1;
            }
            z += 1;
        }
        proof {
            assert forall|i: int|
                #![trigger stitched(ox, oz, len, other_len, i)]
                stitched(ox, oz, len, other_len, i) implies snapped(*snap, offset_x, offset_z,
                before,
                neighbor@,
                vertices@,
                i,
                partner_of(ox, oz, i),
            ) by {
                assert(0 <= i < GRID_DIM * GRID_DIM);
            }
        }
    }

    /// Places one vertex for every cell of the grid, row by row: `place` is
    /// handed each cell with the samples at its corners and returns where
    /// the cell's vertex lies and which way it faces. No cell is skipped.
    pub fn generate_vertices<T: Copy, F: Fn(Cell<T>) -> SurfaceVertex<T>>(
        &self,
        padded: &PaddedHeightmap<T>,
        place: F,
    ) -> (records: Vec<SurfaceVertex<T>>)
        requires
            forall|cell: Cell<T>| call_requires(place, (cell,)),
        ensures
            placed_by(place, *padded, records@),
    {
        let dim: u16 = GRID_DIM as u16;
        let mut records: Vec<SurfaceVertex<T>> = Vec::new();
        let mut z: u16 = 0;
        while z < dim
            invariant
                forall|cell: Cell<T>| call_requires(place, (cell,)),
                dim == GRID_DIM,
                z <= dim,
                records@.len() == z * GRID_DIM,
                forall|i: int|
                    0 <= i < records@.len() ==> call_ensures(
                        place,
                        (padded.cell_at(vertex_cell_x(i), vertex_cell_z(i)),),
                        #[trigger] records@[i],
                    ),
            decreases dim - z,
        {
            let mut x: u16 = 0;
            while x < dim
                invariant
                    forall|cell: Cell<T>| call_requires(place, (cell,)),
                    dim == GRID_DIM,
                    z < dim,
                    x <= dim,
                    records@.len() == z * GRID_DIM + x,
                    forall|i: int|
                        0 <= i < records@.len() ==> call_ensures(
                            place,
                            (padded.cell_at(vertex_cell_x(i), vertex_cell_z(i)),),
                            #[trigger] records@[i],
                        ),
                decreases dim - x,
            {
                proof {
                    lemma_cell_of_vertex(x as int, z as int);
                }
                let cell = padded.cell(x, z);
                records.push(place(cell));
                x += 1;
            }
            z += 1;
        }
        records
    }

    /// Lays the placed vertices out in flat buffers: three position
    /// components and three normal components per vertex.
    pub fn flatten<T: Copy>(&self, records: &Vec<SurfaceVertex<T>>) -> (buffers: (Vec<T>, Vec<T>))
        ensures
            holds_records(buffers.0@, buffers.1@, records@),
    {
        let mut vertices: Vec<T> = Vec::new();
        let mut normals: Vec<T> = Vec::new();
        let mut i: usize = 0;
        while i < records.len()
            invariant
                i <= records@.len(),
                vertices@.len() == 3 * i,
                normals@.len() == 3 * i,
                forall|j: int|
                    0 <= j < 3 * i ==> #[trigger] vertices@[j] == records@[j / 3].position@[j % 3],
                forall|j: int|
                    0 <= j < 3 * i ==> #[trigger] normals@[j] == records@[j / 3].normal@[j % 3],
            decreases records@.len() - i,
        {
            let record = records[i];
            vertices.push(record.position[0]);
            vertices.push(record.position[1]);
            vertices.push(record.position[2]);
            normals.push(record.normal[0]);
            normals.push(record.normal[1]);
            normals.push(record.normal[2]);
            i += 1;
        }
        (vertices, normals)
    }

    /// Builds the surface mesh of a chunk from its padded height grid: one
    /// vertex per cell, placed by `place`, two triangles per quad, and the
    /// material of every vertex.
    pub fn generate_mesh<T: Copy, F: Fn(Cell<T>) -> SurfaceVertex<T>>(
        &self,
        padded: &PaddedHeightmap<T>,
        place: F,
    ) -> (mesh: Mesh<T>)
        requires
            forall|cell: Cell<T>| call_requires(place, (cell,)),
        ensures
            built_by(place, *padded, mesh),
            mesh.vertices@.len() == 3 * VERTEX_COUNT,
            mesh.normals@.len() == 3 * VERTEX_COUNT,
            mesh.indices@ == quad_indices(),
            mesh.indices@.len() == 3 * TRIANGLE_COUNT,
            mesh.materials@.len() == VERTEX_COUNT,
            forall|i: int| 0 <= i < mesh.materials@.len() ==> mesh.materials@[i] == GRASS,
            mesh.consistent(),
    {
        let records = self.generate_vertices(padded, place);
        let buffers = self.flatten(&records);
        let indices = self.generate_indices();
        let materials = self.generate_materials();
        let mesh = Mesh { id: 0, vertices: buffers.0, indices, normals: buffers.1, materials };
        proof {
            assert(placed_by(place, *padded, records@) && holds_records(
                mesh.vertices@,
                mesh.normals@,
                records@,
            ));
            assert(mesh.materials@ =~= Seq::new(VERTEX_COUNT as nat, |i: int| GRASS));
        }
        mesh
    }

    /// Builds the mesh of the chunk at `coord` from its padded height grid
    /// and the vertex rows found around it. Every cell's vertex is placed by
    /// `place`; then, for each row of `neighborhood` that belongs to an
    /// adjacent chunk, the vertices on the shared lattice points are handed
    /// to `snap` together with the neighbour's.
    pub fn generate_dual_contour_mesh<
        T: Copy,
        P: Fn(Cell<T>) -> SurfaceVertex<T>,
        S: Fn([T; 3], [T; 3], i32, i32) -> [T; 3],
    >(
        &self,
        coord: XZCoords,
        padded: &PaddedHeightmap<T>,
        neighborhood: &Vec<ChunkVertex<T>>,
        place: P,
        snap: S,
    ) -> (mesh: Mesh<T>)
        requires
            forall|cell: Cell<T>| call_requires(place, (cell,)),
            forall|own: [T; 3], theirs: [T; 3], dx: i32, dz: i32|
                call_requires(snap, (own, theirs, dx, dz)),
        ensures
            stitched_by(place, snap, coord, *padded, neighborhood@, mesh),
            mesh.consistent(),
            mesh.vertices@.len() == 3 * VERTEX_COUNT,
            mesh.normals@.len() == 3 * VERTEX_COUNT,
            mesh.indices@ == quad_indices(),
            mesh.materials@ == Seq::new(VERTEX_COUNT as nat, |i: int| GRASS),
            neighborhood@.len() == 0 ==> built_by(place, *padded, mesh),
    {
        let built = self.generate_mesh(padded, place);
        let ghost records = choose|records: Seq<SurfaceVertex<T>>| #[trigger]
            placed_by(place, *padded, records) && holds_records(
                built.vertices@,
                built.normals@,
                records,
            );
        let ghost placed = built.vertices@;
        let id = built.id;
        let indices = built.indices;
        let normals = built.normals;
        let materials = built.materials;
        let mut vertices = built.vertices;
        let ghost mut stages: Seq<Seq<T>> = seq![placed];
        let mut n: usize = 0;
        while n < neighborhood.len()
            invariant
                forall|own: [T; 3], theirs: [T; 3], dx: i32, dz: i32|
                    call_requires(snap, (own, theirs, dx, dz)),
                n <= neighborhood@.len(),
                vertices@.len() == placed.len(),
                stages.len() == n + 1,
                stages[0] == placed,
                stages.last() == vertices@,
                forall|m: int|
                    0 <= m < n ==> stitched_to_row(
                        snap,
                        coord,
                        #[trigger] neighborhood@[m],
                        stages[m],
                        stages[m + 1],
                    ),
                forall|j: int|
                    0 <= j < placed.len() && !seamed(coord, neighborhood@, n as int, j / 3)
                        ==> #[trigger] vertices@[j] == placed[j],
            decreases neighborhood@.len() - n,
        {
            let ghost mid = vertices@;
            let row = &neighborhood[n];
            if coord.is_adjacent(row.grid) {
                let offset_x: i32 = row.grid.x - coord.x;
                let offset_z: i32 = row.grid.z - coord.z;
                self.stitch(&mut vertices, offset_x, offset_z, &row.vertices, &snap);
            }
            proof {
                assert(stitched_to_row(snap, coord, neighborhood@[n as int], mid, vertices@));
                let ghost earlier = stages;
                stages = stages.push(vertices@);
                assert forall|m: int| 0 <= m < n + 1 implies stitched_to_row(
                    snap,
                    coord,
                    #[trigger] neighborhood@[m],
                    stages[m],
                    stages[m + 1],
                ) by {
                    if m < n {
                        assert(stages[m] == earlier[m] && stages[m + 1] == earlier[m + 1]);
                    } else {
                        assert(stages[m] == mid && stages[m + 1] == vertices@);
                    }
                }
                assert forall|j: int|
                    0 <= j < placed.len() && !seamed(
                        coord,
                        neighborhood@,
                        n + 1,
                        j / 3,
                    ) implies #[trigger] vertices@[j] == placed[j] by {
                    if seamed(coord, neighborhood@, n as int, j / 3) {
                        let m = choose|m: int|
                            0 <= m < n && coord.adjacent((#[trigger] neighborhood@[m]).grid)
                                && on_seam(
                                neighborhood@[m].grid.x - coord.x,
                                neighborhood@[m].grid.z - coord.z,
                                vertex_cell_x(j / 3),
                                vertex_cell_z(j / 3),
                            );
                        assert(0 <= m < n + 1);
                    }
                    assert(mid[j] == placed[j]);
                    if coord.adjacent(neighborhood@[n as int].grid) {
                        assert(!on_seam(
                            neighborhood@[n as int].grid.x - coord.x,
                            neighborhood@[n as int].grid.z - coord.z,
                            vertex_cell_x(j / 3),
                            vertex_cell_z(j / 3),
                        ));
                    }
                }
            }
            n += 1;
        }
        let mesh = Mesh { id, vertices, indices, normals, materials };
        proof {
            assert(holds_records(placed, mesh.normals@, records));
            assert(placed_by(place, *padded, records));
            assert forall|j: int|
                0 <= j < placed.len() && !seamed(
                    coord,
                    neighborhood@,
                    neighborhood@.len() as int,
                    j / 3,
                ) implies #[trigger] mesh.vertices@[j] == records[j / 3].position@[j % 3] by {
                assert(mesh.vertices@[j] == placed[j]);
            }
            assert(stitched_through(snap, coord, neighborhood@, stages[0], stages));
            assert(stitched_by(place, snap, coord, *padded, neighborhood@, mesh));
            if neighborhood@.len() == 0 {
                assert(mesh.vertices@ == placed);
                assert(placed_by(place, *padded, records) && holds_records(
                    mesh.vertices@,
                    mesh.normals@,
                    records,
                ));
            }
        }
        mesh
    }

    /// Emits the triangles of a chunk mesh: for every block of four
    /// neighbouring cells one quad, cut into two upward-facing triangles.
    pub fn generate_indices(&self) -> (indices: Vec<u32>)
        ensures
            indices@ == quad_indices(),
            indices@.len() == 3 * TRIANGLE_COUNT,
            faces_valid(indices@, VERTEX_COUNT as int),
    {
        let size: u32 = CHUNK_SIZE as u32;
        let dim: u32 = GRID_DIM as u32;
        let mut indices: Vec<u32> = Vec::new();
        let mut z: u32 = 0;
        while z < size
            invariant
                size == CHUNK_SIZE,
                dim == GRID_DIM,
                z <= size,
                indices@.len() == 6 * (z * CHUNK_SIZE),
                forall|i: int| 0 <= i < indices@.len() ==> indices@[i] == quad_index(i),
            decreases size - z,
        {
            let mut x: u32 = 0;
            while x < size
                invariant
                    size == CHUNK_SIZE,
                    dim == GRID_DIM,
                    z < size,
                    x <= size,
                    indices@.len() == 6 * (z * CHUNK_SIZE + x),
                    forall|i: int| 0 <= i < indices@.len() ==> indices@[i] == quad_index(i),
                decreases size - x,
            {
                let v00: u32 = z * dim + x;
                let v10: u32 = z * dim + (x + 1);
                let v01: u32 = (z + 1) * dim + x;
                let v11: u32 = (z + 1) * dim + (x + 1);
                let ghost base: int = 6 * (z * CHUNK_SIZE + x);
                assert(base / 6 == z * CHUNK_SIZE + x && base % 6 == 0);
                assert((base + 5) / 6 == z * CHUNK_SIZE + x && (base + 5) % 6 == 5);
                assert(quad_index(base) == v00);
                assert(quad_index(base + 1) == v11);
                assert(quad_index(base + 2) == v10);
                assert(quad_index(base + 3) == v00);
                assert(quad_index(base + 4) == v01);
                assert(quad_index(base + 5) == v11);
                indices.push(v00);
                indices.push(v11);
                indices.push(v10);
                indices.push(v00);
                indices.push(v01);
                indices.push(v11);
                x += 1;
            }
            z += 1;
        }
        proof {
            assert(indices@ =~= quad_indices());
            lemma_quad_indices_valid();
        }
        indices
    }

    /// Emits the material of every vertex of a chunk mesh.
    pub fn generate_materials(&self) -> (materials: Vec<u32>)
        ensures
            materials@.len() == VERTEX_COUNT,
            forall|i: int| 0 <= i < materials@.len() ==> materials@[i] == GRASS,
    {
        let mut materials: Vec<u32> = Vec::new();
        let mut i: usize = 0;
        while i < VERTEX_COUNT
            invariant
                i <= VERTEX_COUNT,
                materials@.len() == i,
                forall|j: int| 0 <= j < materials@.len() ==> materials@[j] == GRASS,
            decreases VERTEX_COUNT - i,
        {
            materials.push(GRASS);
            i += 1;
        }
        materials
    }
}

/// What `place` returns for a cell depends on the cell alone.
pub open spec fn places_as_a_function<T, P: Fn(Cell<T>) -> SurfaceVertex<T>>(place: P) -> bool {
    forall|cell: Cell<T>, a: SurfaceVertex<T>, b: SurfaceVertex<T>|
        call_ensures(place, (cell,), a) && call_ensures(place, (cell,), b) ==> a == b
}

/// What `snap` returns depends on its arguments alone.
pub open spec fn snaps_as_a_function<T, S: Fn([T; 3], [T; 3], i32, i32) -> [T; 3]>(
    snap: S,
) -> bool {
    forall|own: [T; 3], theirs: [T; 3], dx: i32, dz: i32, a: [T; 3], b: [T; 3]|
        call_ensures(snap, (own, theirs, dx, dz), a) && call_ensures(
            snap,
            (own, theirs, dx, dz),
            b,
        ) ==> a == b
}

/// Two grids of the same edge with the same samples place the same
/// vertices.
proof fn lemma_same_records<T, P: Fn(Cell<T>) -> SurfaceVertex<T>>(
    place: P,
    first_grid: PaddedHeightmap<T>,
    second_grid: PaddedHeightmap<T>,
    one: Seq<SurfaceVertex<T>>,
    two: Seq<SurfaceVertex<T>>,
)
    requires
        places_as_a_function(place),
        first_grid@ == second_grid@,
        first_grid.dim() == second_grid.dim(),
        placed_by(place, first_grid, one),
        placed_by(place, second_grid, two),
    ensures
        one == two,
{
    assert forall|i: int| 0 <= i < VERTEX_COUNT implies one[i] == two[i] by {
        let cell = first_grid.cell_at(vertex_cell_x(i), vertex_cell_z(i));
        assert(cell == second_grid.cell_at(vertex_cell_x(i), vertex_cell_z(i)));
        assert(call_ensures(place, (cell,), one[i]));
        assert(call_ensures(place, (cell,), two[i]));
    }
    assert(one =~= two);
}

/// Flat buffers that hold the same records are equal.
proof fn lemma_same_buffers<T>(
    records: Seq<SurfaceVertex<T>>,
    first_vertices: Seq<T>,
    first_normals: Seq<T>,
    second_vertices: Seq<T>,
    second_normals: Seq<T>,
)
    requires
        holds_records(first_vertices, first_normals, records),
        holds_records(second_vertices, second_normals, records),
    ensures
        first_vertices == second_vertices,
        first_normals == second_normals,
{
    assert(first_vertices =~= second_vertices);
    assert(first_normals =~= second_normals);
}

/// Where placing a vertex is a function of the cell, the mesh of a chunk is
/// a function of its padded heights: any two meshes built from grids of the
/// same edge with the same samples hold the same positions, normals,
/// triangles and materials.
pub proof fn lemma_mesh_is_repeatable<T, P: Fn(Cell<T>) -> SurfaceVertex<T>>(
    place: P,
    first_grid: PaddedHeightmap<T>,
    second_grid: PaddedHeightmap<T>,
    first: Mesh<T>,
    second: Mesh<T>,
)
    requires
        places_as_a_function(place),
        first_grid@ == second_grid@,
        first_grid.dim() == second_grid.dim(),
        built_by(place, first_grid, first),
        built_by(place, second_grid, second),
    ensures
        first.vertices@ == second.vertices@,
        first.normals@ == second.normals@,
        first.indices@ == second.indices@,
        first.materials@ == second.materials@,
        first.id == second.id,
{
    let one = choose|records: Seq<SurfaceVertex<T>>| #[trigger]
        placed_by(place, first_grid, records) && holds_records(
            first.vertices@,
            first.normals@,
            records,
        );
    let two = choose|records: Seq<SurfaceVertex<T>>| #[trigger]
        placed_by(place, second_grid, records) && holds_records(
            second.vertices@,
            second.normals@,
            records,
        );
    lemma_same_records(place, first_grid, second_grid, one, two);
    lemma_same_buffers(one, first.vertices@, first.normals@, second.vertices@, second.normals@);
}

/// Where snapping is a function of its arguments, stitching the same
/// positions against the same neighbour gives the same positions.
pub proof fn lemma_stitch_is_repeatable<T, S: Fn([T; 3], [T; 3], i32, i32) -> [T; 3]>(
    snap: S,
    offset_x: i32,
    offset_z: i32,
    before: Seq<T>,
    neighbor: Seq<T>,
    first: Seq<T>,
    second: Seq<T>,
)
    requires
        snaps_as_a_function(snap),
        stitched_against(snap, offset_x, offset_z, before, neighbor, first),
        stitched_against(snap, offset_x, offset_z, before, neighbor, second),
    ensures
        first == second,
{
    let ox = offset_x as int;
    let oz = offset_z as int;
    assert forall|j: int| 0 <= j < before.len() implies first[j] == second[j] by {
        let i = j / 3;
        if stitched(ox, oz, before.len() as int, neighbor.len() as int, i) {
            let p = partner_of(ox, oz, i);
            lemma_same_snap(snap, offset_x, offset_z, before, neighbor, first, second, i, p);
            assert(j == 3 * i || j == 3 * i + 1 || j == 3 * i + 2);
        } else {
            assert(first[j] == before[j]);
            assert(second[j] == before[j]);
        }
    }
    assert(first =~= second);
}

/// Where snapping is a function of its arguments, a vertex snapped twice
/// from the same two positions is the same vertex.
proof fn lemma_same_snap<T, S: Fn([T; 3], [T; 3], i32, i32) -> [T; 3]>(
    snap: S,
    offset_x: i32,
    offset_z: i32,
    before: Seq<T>,
    neighbor: Seq<T>,
    first: Seq<T>,
    second: Seq<T>,
    i: int,
    p: int,
)
    requires
        snaps_as_a_function(snap),
        snapped(snap, offset_x, offset_z, before, neighbor, first, i, p),
        snapped(snap, offset_x, offset_z, before, neighbor, second, i, p),
    ensures
        first[3 * i] == second[3 * i],
        first[3 * i + 1] == second[3 * i + 1],
        first[3 * i + 2] == second[3 * i + 2],
{
    let (own1, theirs1, moved1) = choose|own: [T; 3], theirs: [T; 3], moved: [T; 3]|
        reads(before, i, own) && reads(neighbor, p, theirs) && reads(first, i, moved)
            && #[trigger] call_ensures(snap, (own, theirs, offset_x, offset_z), moved);
    let (own2, theirs2, moved2) = choose|own: [T; 3], theirs: [T; 3], moved: [T; 3]|
        reads(before, i, own) && reads(neighbor, p, theirs) && reads(second, i, moved)
            && #[trigger] call_ensures(snap, (own, theirs, offset_x, offset_z), moved);
    assert(own1@ =~= own2@);
    assert(theirs1@ =~= theirs2@);
    assert(own1 =~= own2);
    assert(theirs1 =~= theirs2);
    assert(moved1 == moved2);
}

/// Where placing and snapping are functions of their arguments, the mesh of
/// a chunk is a function of its address, its padded heights and the rows
/// around it: any two meshes built from equal grids and equal neighbour
/// positions hold the same positions, normals, triangles and materials.
pub proof fn lemma_stitched_mesh_is_repeatable<
    T,
    P: Fn(Cell<T>) -> SurfaceVertex<T>,
    S: Fn([T; 3], [T; 3], i32, i32) -> [T; 3],
>(
    place: P,
    snap: S,
    coord: XZCoords,
    first_grid: PaddedHeightmap<T>,
    second_grid: PaddedHeightmap<T>,
    first_rows: Seq<ChunkVertex<T>>,
    second_rows: Seq<ChunkVertex<T>>,
    first: Mesh<T>,
    second: Mesh<T>,
)
    requires
        places_as_a_function(place),
        snaps_as_a_function(snap),
        first_grid@ == second_grid@,
        first_grid.dim() == second_grid.dim(),
        first_rows.len() == second_rows.len(),
        forall|n: int|
            0 <= n < first_rows.len() ==> (#[trigger] first_rows[n]).grid == second_rows[n].grid
                && first_rows[n].vertices@ == second_rows[n].vertices@,
        stitched_by(place, snap, coord, first_grid, first_rows, first),
        stitched_by(place, snap, coord, second_grid, second_rows, second),
    ensures
        first.vertices@ == second.vertices@,
        first.normals@ == second.normals@,
        first.indices@ == second.indices@,
        first.materials@ == second.materials@,
        first.id == second.id,
{
    let (one, stages1) = choose|records: Seq<SurfaceVertex<T>>, stages: Seq<Seq<T>>|
        #![trigger placed_by(place, first_grid, records), stitched_through(snap, coord, first_rows, stages[0], stages)]
        placed_by(place, first_grid, records) && holds_records(
            stages[0],
            first.normals@,
            records,
        ) && stitched_through(snap, coord, first_rows, stages[0], stages) && stages.last()
            == first.vertices@;
    let (two, stages2) = choose|records: Seq<SurfaceVertex<T>>, stages: Seq<Seq<T>>|
        #![trigger placed_by(place, second_grid, records), stitched_through(snap, coord, second_rows, stages[0], stages)]
        placed_by(place, second_grid, records) && holds_records(
            stages[0],
            second.normals@,
            records,
        ) && stitched_through(snap, coord, second_rows, stages[0], stages) && stages.last()
            == second.vertices@;
    lemma_same_records(place, first_grid, second_grid, one, two);
    lemma_same_buffers(one, stages1[0], first.normals@, stages2[0], second.normals@);
    lemma_same_stages(
        snap,
        coord,
        first_rows,
        second_rows,
        stages1,
        stages2,
        first_rows.len() as int,
    );
}

/// Chains of stitches that start from the same positions and pass the same
/// neighbours agree at every stage.
proof fn lemma_same_stages<T, S: Fn([T; 3], [T; 3], i32, i32) -> [T; 3]>(
    snap: S,
    coord: XZCoords,
    first_rows: Seq<ChunkVertex<T>>,
    second_rows: Seq<ChunkVertex<T>>,
    stages1: Seq<Seq<T>>,
    stages2: Seq<Seq<T>>,
    upto: int,
)
    requires
        snaps_as_a_function(snap),
        first_rows.len() == second_rows.len(),
        forall|n: int|
            0 <= n < first_rows.len() ==> (#[trigger] first_rows[n]).grid == second_rows[n].grid
                && first_rows[n].vertices@ == second_rows[n].vertices@,
        stitched_through(snap, coord, first_rows, stages1[0], stages1),
        stitched_through(snap, coord, second_rows, stages2[0], stages2),
        stages1[0] == stages2[0],
        0 <= upto <= first_rows.len(),
    ensures
        stages1[upto] == stages2[upto],
    decreases upto,
{
    if upto > 0 {
        let n = upto - 1;
        lemma_same_stages(snap, coord, first_rows, second_rows, stages1, stages2, n);
        let row1 = first_rows[n];
        let row2 = second_rows[n];
        assert(stitched_to_row(snap, coord, row1, stages1[n], stages1[n + 1]));
        assert(stitched_to_row(snap, coord, row2, stages2[n], stages2[n + 1]));
        if coord.adjacent(row1.grid) {
            lemma_stitch_is_repeatable(
                snap,
                (row1.grid.x - coord.x) as i32,
                (row1.grid.z - coord.z) as i32,
                stages1[n],
                row1.vertices@,
                stages1[n + 1],
                stages2[n + 1],
            );
        }
    }
}

/// Where a cell whose four corners have one height gets its vertex at that
/// height, the mesh of a grid whose samples are all the same height has
/// every vertex at that height.
pub proof fn lemma_flat_heights_stay_flat<T, P: Fn(Cell<T>) -> SurfaceVertex<T>>(
    place: P,
    grid: PaddedHeightmap<T>,
    height: T,
    mesh: Mesh<T>,
    i: int,
)
    requires
        1 <= grid.dim(),
        grid@.len() == grid.dim() * grid.dim(),
        forall|k: int| 0 <= k < grid@.len() ==> grid@[k] == height,
        forall|cell: Cell<T>, vertex: SurfaceVertex<T>|
            call_ensures(place, (cell,), vertex) && cell.c00.height == height && cell.c10.height
                == height && cell.c01.height == height && cell.c11.height == height
                ==> vertex.position@[1] == height,
        built_by(place, grid, mesh),
        0 <= i < VERTEX_COUNT,
    ensures
        mesh.vertices@.len() == 3 * VERTEX_COUNT,
        mesh.vertices@[3 * i + 1] == height,
{
    let records = choose|records: Seq<SurfaceVertex<T>>| #[trigger]
        placed_by(place, grid, records) && holds_records(mesh.vertices@, mesh.normals@, records);
    let x = vertex_cell_x(i);
    let z = vertex_cell_z(i);
    lemma_flat_grid_cells(grid, height, x, z);
    let cell = grid.cell_at(x, z);
    assert(call_ensures(place, (cell,), records[i]));
    let j = 3 * i + 1;
    assert(j / 3 == i && j % 3 == 1);
    assert(mesh.vertices@[j] == records[j / 3].position@[j % 3]);
}

/// Where snapping is the function `moved` of its arguments, a stitched
/// vertex on a shared lattice point is `moved` of this chunk's position
/// before and the neighbour's position of the partner vertex.
pub proof fn lemma_seam_vertex_is_snapped<T, S: Fn([T; 3], [T; 3], i32, i32) -> [T; 3]>(
    snap: S,
    moved: spec_fn([T; 3], [T; 3], i32, i32) -> [T; 3],
    offset_x: i32,
    offset_z: i32,
    before: Seq<T>,
    neighbor: Seq<T>,
    after: Seq<T>,
    i: int,
)
    requires
        forall|own: [T; 3], theirs: [T; 3], dx: i32, dz: i32, kept: [T; 3]|
            call_ensures(snap, (own, theirs, dx, dz), kept) ==> kept == moved(own, theirs, dx, dz),
        stitched_against(snap, offset_x, offset_z, before, neighbor, after),
        stitched(
            offset_x as int,
            offset_z as int,
            before.len() as int,
            neighbor.len() as int,
            i,
        ),
    ensures
        exists|own: [T; 3], theirs: [T; 3]|
            #![trigger moved(own, theirs, offset_x, offset_z)]
            reads(before, i, own) && reads(
                neighbor,
                partner_of(offset_x as int, offset_z as int, i),
                theirs,
            ) && reads(after, i, moved(own, theirs, offset_x, offset_z)),
{
    let p = partner_of(offset_x as int, offset_z as int, i);
    assert(snapped(snap, offset_x, offset_z, before, neighbor, after, i, p));
    let (own, theirs, kept) = choose|own: [T; 3], theirs: [T; 3], kept: [T; 3]|
        reads(before, i, own) && reads(neighbor, p, theirs) && reads(after, i, kept)
            && #[trigger] call_ensures(snap, (own, theirs, offset_x, offset_z), kept);
    assert(kept == moved(own, theirs, offset_x, offset_z));
    assert(reads(after, i, moved(own, theirs, offset_x, offset_z)));
}

/// Stitching pairs vertices that stand on the same point of the world
/// lattice: the cell of this chunk's vertex and the cell of its partner in
/// the neighbouring chunk have the same world position.
pub proof fn lemma_stitched_vertices_share_a_lattice_point(
    own: XZCoords,
    neighbor: XZCoords,
    own_len: int,
    neighbor_len: int,
    i: int,
)
    requires
        stitched(neighbor.x - own.x, neighbor.z - own.z, own_len, neighbor_len, i),
    ensures
        0 <= partner_of(neighbor.x - own.x, neighbor.z - own.z, i) < VERTEX_COUNT,
        own.world_pos(vertex_cell_x(i), vertex_cell_z(i)) == neighbor.world_pos(
            vertex_cell_x(partner_of(neighbor.x - own.x, neighbor.z - own.z, i)),
            vertex_cell_z(partner_of(neighbor.x - own.x, neighbor.z - own.z, i)),
        ),
{
    let other = seam_cell(neighbor.x - own.x, neighbor.z - own.z, vertex_cell_x(i), vertex_cell_z(i));
    lemma_cell_of_vertex(other.0, other.1);
}

/// The index buffer of a chunk mesh holds two triangles for each of the
/// `CHUNK_SIZE` squared quads, and every entry names one of the
/// `(CHUNK_SIZE + 1)` squared vertices.
pub proof fn lemma_quad_indices_valid()
    ensures
        quad_indices().len() == 3 * (2 * (CHUNK_SIZE * CHUNK_SIZE)),
        VERTEX_COUNT == (CHUNK_SIZE + 1) * (CHUNK_SIZE + 1),
        faces_valid(quad_indices(), VERTEX_COUNT as int),
{
    assert forall|i: int| 0 <= i < quad_indices().len() implies quad_indices()[i]
        < VERTEX_COUNT by {
        lemma_quad_index_bounds(i);
    }
}

/// Every entry of the index buffer names the vertex of a cell of the grid.
pub proof fn lemma_quad_index_bounds(i: int)
    requires
        0 <= i < INDEX_COUNT,
    ensures
        0 <= quad_index(i) < VERTEX_COUNT,
        0 <= vertex_cell_x(quad_index(i)) <= CHUNK_SIZE,
        0 <= vertex_cell_z(quad_index(i)) <= CHUNK_SIZE,
        quad_index(i) == cell_vertex(vertex_cell_x(quad_index(i)), vertex_cell_z(quad_index(i))),
{
    let quad = i / 6;
    let corner = quad_corner(i % 6);
    assert(0 <= quad < 1024);
    assert(0 <= quad % 32 < 32);
    assert(0 <= quad / 32 < 32);
    assert(0 <= corner.0 <= 1 && 0 <= corner.1 <= 1);
    let x = quad % 32 + corner.0;
    let z = quad / 32 + corner.1;
    assert(quad_index(i) == z * 33 + x);
    assert((z * 33 + x) % 33 == x);
    assert((z * 33 + x) / 33 == z);
}

/// Every cell's vertex is a corner of at least one triangle: no vertex is
/// left out of the surface.
pub proof fn lemma_every_vertex_is_indexed(x: int, z: int)
    requires
        0 <= x <= CHUNK_SIZE,
        0 <= z <= CHUNK_SIZE,
    ensures
        exists|i: int| 0 <= i < INDEX_COUNT && #[trigger] quad_index(i) == cell_vertex(x, z),
{
    let qx = if x < 32 { x } else { 31 };
    let qz = if z < 32 { z } else { 31 };
    let dx = x - qx;
    let dz = z - qz;
    let k: int = if dx == 0 && dz == 0 {
        0
    } else if dx == 1 && dz == 1 {
        1
    } else if dx == 1 {
        2
    } else {
        4
    };
    let quad = qz * 32 + qx;
    let i = 6 * quad + k;
    assert(i / 6 == quad);
    assert(i % 6 == k);
    assert(quad % 32 == qx);
    assert(quad / 32 == qz);
    assert(quad_index(i) == cell_vertex(x, z));
}

/// On the cell lattice every triangle of the index buffer is wound so that
/// it faces up: the cross product of its edges has a positive Y component.
pub proof fn lemma_triangles_face_up(t: int)
    requires
        0 <= t < TRIANGLE_COUNT,
    ensures
        lattice_cross_y(
            vertex_cell(quad_index(3 * t)),
            vertex_cell(quad_index(3 * t + 1)),
            vertex_cell(quad_index(3 * t + 2)),
        ) > 0,
{
    let quad = t / 2;
    let half = t % 2;
    assert((3 * t) / 6 == quad && (3 * t + 1) / 6 == quad && (3 * t + 2) / 6 == quad);
    assert((3 * t) % 6 == 3 * half);
    assert((3 * t + 1) % 6 == 3 * half + 1);
    assert((3 * t + 2) % 6 == 3 * half + 2);
    lemma_quad_index_bounds(3 * t);
    lemma_quad_index_bounds(3 * t + 1);
    lemma_quad_index_bounds(3 * t + 2);
    let qx = quad % 32;
    let qz = quad / 32;
    lemma_cell_of_vertex(qx, qz);
    lemma_cell_of_vertex(qx + 1, qz);
    lemma_cell_of_vertex(qx, qz + 1);
    lemma_cell_of_vertex(qx + 1, qz + 1);
    let a = vertex_cell(quad_index(3 * t));
    let b = vertex_cell(quad_index(3 * t + 1));
    let c = vertex_cell(quad_index(3 * t + 2));
    if half == 0 {
        assert(quad_index(3 * t) == cell_vertex(qx, qz));
        assert(quad_index(3 * t + 1) == cell_vertex(qx + 1, qz + 1));
        assert(quad_index(3 * t + 2) == cell_vertex(qx + 1, qz));
        assert(b.1 - a.1 == 1 && c.0 - a.0 == 1 && b.0 - a.0 == 1 && c.1 - a.1 == 0);
    } else {
        assert(quad_index(3 * t) == cell_vertex(qx, qz));
        assert(quad_index(3 * t + 1) == cell_vertex(qx, qz + 1));
        assert(quad_index(3 * t + 2) == cell_vertex(qx + 1, qz + 1));
        assert(b.1 - a.1 == 1 && c.0 - a.0 == 1 && b.0 - a.0 == 0 && c.1 - a.1 == 1);
    }
    assert((b.1 - a.1) * (c.0 - a.0) - (b.0 - a.0) * (c.1 - a.1) == 1) by (nonlinear_arith)
        requires
            b.1 - a.1 == 1,
            c.0 - a.0 == 1,
            (b.0 - a.0 == 1 && c.1 - a.1 == 0) || (b.0 - a.0 == 0 && c.1 - a.1 == 1),
    ;
}

/// A cell's vertex index leads back to the cell.
pub proof fn lemma_cell_of_vertex(x: int, z: int)
    requires
        0 <= x < GRID_DIM,
        0 <= z < GRID_DIM,
    ensures
        0 <= cell_vertex(x, z) < VERTEX_COUNT,
        vertex_cell(cell_vertex(x, z)) == (x, z),
{
    assert((z * 33 + x) % 33 == x);
    assert((z * 33 + x) / 33 == z);
}

} // verus!
