//! Square grids of height samples that carry a ring of padding around a chunk.

use vstd::prelude::*;
use vstd::arithmetic::div_mod::lemma_fundamental_div_mod_converse;

verus! {

/// Edge length of the padded grid of a chunk: the samples `-1..=CHUNK_SIZE + 1`.
pub const PADDED_DIM: usize = 35;

/// Storage coordinate of the logical coordinate `v` along one axis of a
/// padded grid of edge `dim`. Logical `-1` is the first stored sample;
/// coordinates beyond either end take the sample on the border.
pub open spec fn clamp_axis(v: int, dim: int) -> int {
    if v + 1 < 0 {
        0
    } else if v + 1 > dim - 1 {
        dim - 1
    } else {
        v + 1
    }
}

/// Row-major position of the logical sample `(x, z)` in a padded grid.
pub open spec fn padded_index(dim: int, x: int, z: int) -> int {
    clamp_axis(z, dim) * dim + clamp_axis(x, dim)
}

/// The samples `0..dim - 3` on both axes of a padded grid, row-major.
pub open spec fn interior_of<T>(grid: Seq<T>, dim: int) -> Seq<T> {
    let side = dim - 3;
    Seq::new((side * side) as nat, |i: int| grid[padded_index(dim, i % side, i / side)])
}

/// The samples that describe the surface at one lattice point: the height
/// there and the heights one step away along each axis.
#[derive(Clone, Copy, Debug)]
pub struct Corner<T> {
    pub height: T,
    /// One step toward smaller x.
    pub west: T,
    /// One step toward larger x.
    pub east: T,
    /// One step toward smaller z.
    pub south: T,
    /// One step toward larger z.
    pub north: T,
}

/// A cell of the mesh grid with the samples at its four corners.
#[derive(Clone, Copy, Debug)]
pub struct Cell<T> {
    pub x: usize,
    pub z: usize,
    /// Corner `(x, z)`.
    pub c00: Corner<T>,
    /// Corner `(x + 1, z)`.
    pub c10: Corner<T>,
    /// Corner `(x, z + 1)`.
    pub c01: Corner<T>,
    /// Corner `(x + 1, z + 1)`.
    pub c11: Corner<T>,
}

/// A chunk's samples together with the surrounding ring that gradients at the
/// chunk's edge need, stored row-major.
pub struct PaddedHeightmap<T> {
    data: Vec<T>,
    dim: usize,
}

impl<T> View for PaddedHeightmap<T> {
    type V = Seq<T>;

    closed spec fn view(&self) -> Seq<T> {
        self.data@
    }
}

impl<T> PaddedHeightmap<T> {
    /// Edge length of the stored grid.
    pub closed spec fn dim(&self) -> int {
        self.dim as int
    }

    #[verifier::type_invariant]
    closed spec fn wf(&self) -> bool {
        &&& self.dim >= 3
        &&& self.data@.len() == self.dim * self.dim
        &&& self.dim * self.dim <= usize::MAX
    }

    /// The sample at logical `(x, z)`.
    pub open spec fn at(&self, x: int, z: int) -> T {
        self@[padded_index(self.dim(), x, z)]
    }

    /// The chunk's own samples without the padding, row-major.
    pub open spec fn interior(&self) -> Seq<T> {
        interior_of(self@, self.dim())
    }

    /// The samples at and around the lattice point `(x, z)`.
    pub open spec fn corner_at(&self, x: int, z: int) -> Corner<T> {
        Corner {
            height: self.at(x, z),
            west: self.at(x - 1, z),
            east: self.at(x + 1, z),
            south: self.at(x, z - 1),
            north: self.at(x, z + 1),
        }
    }

    /// The cell `(x, z)` with the samples at its four corners.
    pub open spec fn cell_at(&self, x: int, z: int) -> Cell<T> {
        Cell {
            x: x as usize,
            z: z as usize,
            c00: self.corner_at(x, z),
            c10: self.corner_at(x + 1, z),
            c01: self.corner_at(x, z + 1),
            c11: self.corner_at(x + 1, z + 1),
        }
    }

    /// Wraps `data`, which holds `(chunk_size + 3)^2` samples row-major.
    pub fn new(data: Vec<T>, chunk_size: i32) -> (grid: Self)
        requires
            chunk_size >= 0,
            data@.len() == (chunk_size + 3) * (chunk_size + 3),
        ensures
            grid@ == data@,
            grid.dim() == chunk_size + 3,
    {
        proof {
            assert((chunk_size + 3) * (chunk_size + 3) >= chunk_size + 3) by (nonlinear_arith)
                requires
                    chunk_size >= 0,
            ;
        }
        let dim: usize = (chunk_size as usize) + 3;
        let len: usize = data.len();
        assert(len == dim * dim);
        PaddedHeightmap { data, dim }
    }

    /// Edge length of the stored grid.
    pub fn size(&self) -> (dim: usize)
        ensures
            dim == self.dim(),
            dim >= 3,
            self@.len() == dim * dim,
    {
        proof {
            use_type_invariant(self);
        }
        self.dim
    }

    /// Storage coordinate of a logical coordinate along one axis.
    fn axis(&self, v: isize) -> (u: usize)
        ensures
            u == clamp_axis(v as int, self.dim()),
            u < self.dim(),
    {
        proof {
            use_type_invariant(self);
        }
        if v < 0 {
            0
        } else {
            let w: usize = v as usize;
            if w >= self.dim - 2 {
                self.dim - 1
            } else {
                w + 1
            }
        }
    }
}

impl<T: Clone> Clone for PaddedHeightmap<T> {
    fn clone(&self) -> (copy: Self)
        ensures
            copy.dim() == self.dim(),
            copy@.len() == self@.len(),
            forall|i: int|
                0 <= i < self@.len() ==> cloned::<T>(
                    #[trigger] self@[i],
                    copy@[i],
                ),
    {
        proof {
            use_type_invariant(self);
        }
        PaddedHeightmap { data: self.data.clone(), dim: self.dim }
    }
}

impl<T: Copy> PaddedHeightmap<T> {
    /// Reads the sample at logical `(x, z)`; coordinates outside
    /// `-1..=dim - 2` read the nearest sample on the border.
    pub fn get(&self, x: isize, z: isize) -> (sample: T)
        ensures
            sample == self.at(x as int, z as int),
    {
        proof {
            use_type_invariant(self);
        }
        let u: usize = self.axis(x);
        let v: usize = self.axis(z);
        assert(0 <= v * self.dim && v * self.dim + u < self.dim * self.dim) by (nonlinear_arith)
            requires
                0 <= u < self.dim,
                0 <= v < self.dim,
        ;
        self.data[v * self.dim + u]
    }

    /// Gathers the samples at and around the lattice point `(x, z)`. Reads
    /// past the padding take the sample on the border.
    pub fn corner(&self, x: isize, z: isize) -> (corner: Corner<T>)
        ensures
            corner == self.corner_at(x as int, z as int),
    {
        proof {
            use_type_invariant(self);
            lemma_dim_fits(self.dim());
        }
        let height = self.get(x, z);
        let west = if x > isize::MIN {
            self.get(x - 1, z)
        } else {
            height
        };
        let east = if x < isize::MAX {
            self.get(x + 1, z)
        } else {
            height
        };
        let south = if z > isize::MIN {
            self.get(x, z - 1)
        } else {
            height
        };
        let north = if z < isize::MAX {
            self.get(x, z + 1)
        } else {
            height
        };
        Corner { height, west, east, south, north }
    }

    /// Gathers the samples at the four corners of the cell `(x, z)`.
    pub fn cell(&self, x: u16, z: u16) -> (cell: Cell<T>)
        ensures
            cell == self.cell_at(x as int, z as int),
    {
        let cx: isize = x as isize;
        let cz: isize = z as isize;
        Cell {
            x: x as usize,
            z: z as usize,
            c00: self.corner(cx, cz),
            c10: self.corner(cx + 1, cz),
            c01: self.corner(cx, cz + 1),
            c11: self.corner(cx + 1, cz + 1),
        }
    }

    /// Copies out the chunk's own samples, row by row, leaving the padding.
    pub fn chunk_only(&self) -> (out: Vec<T>)
        ensures
            out@ == self.interior(),
            out@.len() == (self.dim() - 3) * (self.dim() - 3),
    {
        proof {
            use_type_invariant(self);
        }
        let dim: usize = self.dim;
        let side: usize = dim - 3;
        let mut out: Vec<T> = Vec::new();
        let mut z: usize = 0;
        while z < side
            invariant
                dim == self.dim,
                dim >= 3,
                side == dim - 3,
                self.data@.len() == dim * dim,
                dim * dim <= usize::MAX,
                z <= side,
                out@.len() == z * side,
                forall|i: int|
                    0 <= i < out@.len() ==> out@[i] == self@[padded_index(
                        dim as int,
                        i % (side as int),
                        i / (side as int),
                    )],
            decreases side - z,
        {
            let mut x: usize = 0;
            while x < side
                invariant
                    dim == self.dim,
                    dim >= 3,
                    side == dim - 3,
                    self.data@.len() == dim * dim,
                dim * dim <= usize::MAX,
                    z < side,
                    x <= side,
                    out@.len() == z * side + x,
                    forall|i: int|
                        0 <= i < out@.len() ==> out@[i] == self@[padded_index(
                            dim as int,
                            i % (side as int),
                            i / (side as int),
                        )],
                decreases side - x,
            {
                assert(0 <= (z + 1) * dim && (z + 1) * dim + (x + 1) < dim * dim) by (nonlinear_arith)
                    requires
                        0 <= z + 1 < dim,
                        0 <= x + 1 < dim,
                ;
                assert(padded_index(dim as int, x as int, z as int) == (z + 1) * dim + (x + 1));
                proof {
                    lemma_fundamental_div_mod_converse(
                        z * side + x,
                        side as int,
                        z as int,
                        x as int,
                    );
                }
                out.push(self.data[(z + 1) * dim + (x + 1)]);
                x += 1;
            }
            assert(z * side + side == (z + 1) * side) by (nonlinear_arith);
            z += 1;
        }
        assert(out@.len() == side * side);
        assert(out@ =~= self.interior());
        out
    }
}

/// Every read of a grid lands on one of its samples, wherever it is aimed.
pub proof fn lemma_padded_index_in_grid(dim: int, x: int, z: int)
    requires
        1 <= dim,
    ensures
        0 <= padded_index(dim, x, z) < dim * dim,
{
    let u = clamp_axis(x, dim);
    let v = clamp_axis(z, dim);
    assert(0 <= v * dim && v * dim + u < dim * dim) by (nonlinear_arith)
        requires
            0 <= u < dim,
            0 <= v < dim,
    ;
}

/// In a grid whose samples are all the same height, every cell sees that
/// height at each of its corners and around them.
pub proof fn lemma_flat_grid_cells<T>(grid: PaddedHeightmap<T>, height: T, x: int, z: int)
    requires
        1 <= grid.dim(),
        grid@.len() == grid.dim() * grid.dim(),
        forall|i: int| 0 <= i < grid@.len() ==> grid@[i] == height,
    ensures
        grid.at(x, z) == height,
        grid.corner_at(x, z) == (Corner {
            height: height,
            west: height,
            east: height,
            south: height,
            north: height,
        }),
        grid.cell_at(x, z).c00 == grid.cell_at(x, z).c10,
        grid.cell_at(x, z).c00 == grid.cell_at(x, z).c01,
        grid.cell_at(x, z).c00 == grid.cell_at(x, z).c11,
        grid.cell_at(x, z).c00.height == height,
{
    let dim = grid.dim();
    lemma_padded_index_in_grid(dim, x, z);
    lemma_padded_index_in_grid(dim, x - 1, z);
    lemma_padded_index_in_grid(dim, x + 1, z);
    lemma_padded_index_in_grid(dim, x + 2, z);
    lemma_padded_index_in_grid(dim, x, z - 1);
    lemma_padded_index_in_grid(dim, x, z + 1);
    lemma_padded_index_in_grid(dim, x, z + 2);
    lemma_padded_index_in_grid(dim, x - 1, z + 1);
    lemma_padded_index_in_grid(dim, x + 1, z - 1);
    lemma_padded_index_in_grid(dim, x + 1, z + 1);
    lemma_padded_index_in_grid(dim, x + 2, z + 1);
    lemma_padded_index_in_grid(dim, x + 1, z + 2);
}

/// The edge of a grid that fits in memory is far below the largest signed
/// coordinate.
proof fn lemma_dim_fits(dim: int)
    requires
        3 <= dim,
        dim * dim <= usize::MAX,
    ensures
        dim + 2 <= isize::MAX,
{
    assert(dim * 3 <= dim * dim) by (nonlinear_arith)
        requires
            3 <= dim,
    ;
    assert(isize::MAX * 2 + 1 == usize::MAX);
}

} // verus!
