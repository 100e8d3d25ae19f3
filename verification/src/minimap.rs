//! Placement of a chunk's pixels on the square minimap texture.

use vstd::prelude::*;
use crate::coords::XZCoords;

verus! {

/// Bytes of one texel: red, green, blue, alpha.
pub const TEXEL_BYTES: usize = 4;

/// Layout of the minimap texture.
#[derive(Clone, Copy, Debug, PartialEq, Eq, Structural)]
pub struct MinimapConfig {
    /// Chunks shown in every direction from the centre.
    pub radius: u8,
    /// Texels along one edge of a chunk.
    pub chunk_size: u8,
    /// Texels along one edge of the texture.
    pub texture_size: u32,
}

impl Default for MinimapConfig {
    fn default() -> (config: Self)
        ensures
            config == (MinimapConfig { radius: 10, chunk_size: 32, texture_size: 672 }),
    {
        MinimapConfig { radius: 10, chunk_size: 32, texture_size: 672 }
    }
}

impl MinimapConfig {
    /// Texels between the texture's edge and the centre chunk: half of what
    /// the chunk leaves free, rounded toward zero.
    pub open spec fn margin(&self) -> int {
        if self.texture_size >= self.chunk_size {
            (self.texture_size - self.chunk_size) / 2
        } else {
            -((self.chunk_size - self.texture_size) / 2)
        }
    }

    /// First texel, along one axis, of the chunk with index `coord` when the
    /// chunk with index `center` sits in the middle of the texture.
    pub open spec fn origin(&self, coord: int, center: int) -> int {
        (coord - center) * self.chunk_size + self.margin()
    }

    /// Bytes of one row of a chunk's pixels.
    pub open spec fn row_bytes(&self) -> int {
        self.chunk_size * TEXEL_BYTES
    }

    /// Position in the texture's bytes of row `row` of a chunk whose first
    /// texel is `(origin_x, origin_z)`.
    pub open spec fn row_start(&self, origin_x: int, origin_z: int, row: int) -> int {
        ((origin_z + row) * self.texture_size + origin_x) * TEXEL_BYTES
    }

    /// Row `row` of a chunk whose first row is `origin_z` falls on the
    /// texture.
    pub open spec fn row_visible(&self, origin_z: int, row: int) -> bool {
        0 <= row < self.chunk_size && 0 <= origin_z + row < self.texture_size
    }

    /// The buffers have the sizes of a texture and of a chunk's pixels, and
    /// the chunk's columns all fall on the texture.
    pub open spec fn paintable(&self, data_len: int, pixels_len: int, origin_x: int) -> bool {
        &&& data_len == self.texture_size * self.texture_size * TEXEL_BYTES
        &&& pixels_len == self.chunk_size * self.chunk_size * TEXEL_BYTES
        &&& 0 <= origin_x
        &&& origin_x + self.chunk_size <= self.texture_size
    }

    /// Byte `p` of the texture belongs to a visible row of the chunk.
    pub open spec fn covered(&self, origin_x: int, origin_z: int, p: int) -> bool {
        exists|row: int|
            self.row_visible(origin_z, row) && #[trigger] self.row_start(origin_x, origin_z, row)
                <= p < self.row_start(origin_x, origin_z, row) + self.row_bytes()
    }

    /// First texel of the chunk at `coord` on a texture centred on `center`.
    pub fn chunk_origin(&self, coord: XZCoords, center: XZCoords) -> (origin: (i64, i64))
        ensures
            origin.0 == self.origin(coord.x as int, center.x as int),
            origin.1 == self.origin(coord.z as int, center.z as int),
            -0x200_0000_0000 <= origin.0 <= 0x200_0000_0000,
            -0x200_0000_0000 <= origin.1 <= 0x200_0000_0000,
    {
        let size: i64 = self.chunk_size as i64;
        let free: i64 = self.texture_size as i64 - size;
        let margin: i64 = if free >= 0 {
            free / 2
        } else {
            -((-free) / 2)
        };
        let dx: i64 = coord.x as i64 - center.x as i64;
        let dz: i64 = coord.z as i64 - center.z as i64;
        assert(-1103806595072 <= dx * size <= 1103806595072) by (nonlinear_arith)
            requires
                -4294967296 <= dx <= 4294967296,
                0 <= size <= 255,
        ;
        assert(-1103806595072 <= dz * size <= 1103806595072) by (nonlinear_arith)
            requires
                -4294967296 <= dz <= 4294967296,
                0 <= size <= 255,
        ;
        (dx * size + margin, dz * size + margin)
    }

    /// Writes the pixels of the chunk at `coord`, `chunk_size` rows of
    /// `chunk_size` texels, into the texture `data` centred on `center`.
    /// Rows that fall outside the texture are left out. Nothing is written
    /// when a buffer has the wrong size or the chunk's columns do not all
    /// fall on the texture.
    pub fn paint_chunk(
        &self,
        data: &mut Vec<u8>,
        coord: XZCoords,
        center: XZCoords,
        pixels: &Vec<u8>,
    ) -> (painted: bool)
        ensures
            final(data)@.len() == old(data)@.len(),
            painted == self.paintable(
                old(data)@.len() as int,
                pixels@.len() as int,
                self.origin(coord.x as int, center.x as int),
            ),
            !painted ==> final(data)@ == old(data)@,
            painted ==> forall|row: int, p: int|
                #![trigger final(data)@[p], self.row_start(
                    self.origin(coord.x as int, center.x as int),
                    self.origin(coord.z as int, center.z as int),
                    row,
                )]
                self.row_visible(self.origin(coord.z as int, center.z as int), row)
                    && self.row_start(
                    self.origin(coord.x as int, center.x as int),
                    self.origin(coord.z as int, center.z as int),
                    row,
                ) <= p < self.row_start(
                    self.origin(coord.x as int, center.x as int),
                    self.origin(coord.z as int, center.z as int),
                    row,
                ) + self.row_bytes() ==> final(data)@[p] == pixels@[row * self.row_bytes() + (p
                    - self.row_start(
                    self.origin(coord.x as int, center.x as int),
                    self.origin(coord.z as int, center.z as int),
                    row,
                ))],
            painted ==> forall|p: int|
                0 <= p < old(data)@.len() && !self.covered(
                    self.origin(coord.x as int, center.x as int),
                    self.origin(coord.z as int, center.z as int),
                    p,
                ) ==> #[trigger] final(data)@[p] == old(data)@[p],
    {
        let origin = self.chunk_origin(coord, center);
        let ox: i64 = origin.0;
        let oz: i64 = origin.1;
        let size: usize = self.chunk_size as usize;
        let edge: usize = self.texture_size as usize;
        let stride: usize = size * TEXEL_BYTES;
        let ghost tex: int = self.texture_size as int;
        assert(tex * tex * 4 <= 0x4_0000_0000_0000_0000) by (nonlinear_arith)
            requires
                0 <= tex <= 0xffff_ffff,
        ;
        assert(size * size * 4 <= 260100) by (nonlinear_arith)
            requires
                0 <= size <= 255,
        ;
        let texture_bytes: u128 = (self.texture_size as u128) * (self.texture_size as u128) * 4;
        if data.len() as u128 != texture_bytes || pixels.len() != size * size * TEXEL_BYTES || ox
            < 0 || ox + size as i64 > self.texture_size as i64 {
            return false;
        }
        let left: usize = ox as usize;
        let mut row: usize = 0;
        while row < size
            invariant
                size == self.chunk_size,
                edge == self.texture_size,
                tex == self.texture_size,
                stride == self.row_bytes(),
                ox == self.origin(coord.x as int, center.x as int),
                oz == self.origin(coord.z as int, center.z as int),
                left == ox,
                0 <= ox,
                ox + size <= edge,
                -0x200_0000_0000 <= oz <= 0x200_0000_0000,
                row <= size,
                data@.len() <= usize::MAX,
                pixels@.len() <= usize::MAX,
                data@.len() == old(data)@.len(),
                data@.len() == tex * tex * 4,
                pixels@.len() == size * size * 4,
                forall|r: int, p: int|
                    #![trigger data@[p], self.row_start(ox as int, oz as int, r)]
                    0 <= r < row && self.row_visible(oz as int, r) && self.row_start(
                        ox as int,
                        oz as int,
                        r,
                    ) <= p < self.row_start(ox as int, oz as int, r) + stride ==> data@[p]
                        == pixels@[r * stride + (p - self.row_start(ox as int, oz as int, r))],
                forall|p: int|
                    0 <= p < data@.len() && !(exists|r: int|
                        0 <= r < row && self.row_visible(oz as int, r) && #[trigger] self.row_start(
                            ox as int,
                            oz as int,
                            r,
                        ) <= p < self.row_start(ox as int, oz as int, r) + stride)
                        ==> #[trigger] data@[p] == old(data)@[p],
            decreases size - row,
        {
            let dest_z: i64 = oz + row as i64;
            if 0 <= dest_z && dest_z < self.texture_size as i64 {
                let line: usize = dest_z as usize;
                proof {
                    lemma_row_in_texture(tex, line as int, left as int, size as int);
                    lemma_row_in_pixels(size as int, row as int);
                }
                let start: usize = (line * edge + left) * TEXEL_BYTES;
                let from: usize = row * stride;
                assert(start == self.row_start(ox as int, oz as int, row as int));
                let ghost entry = data@;
                let mut k: usize = 0;
                while k < stride
                    invariant
                        k <= stride,
                        data@.len() <= usize::MAX,
                        pixels@.len() <= usize::MAX,
                        start + stride <= data@.len(),
                        from + stride <= pixels@.len(),
                        data@.len() == entry.len(),
                        forall|p: int|
                            start <= p < start + k ==> #[trigger] data@[p] == pixels@[from + (p
                                - start)],
                        forall|p: int|
                            0 <= p < data@.len() && !(start <= p < start + k) ==> data@[p]
                                == entry[p],
                    decreases stride - k,
                {
                    data.set(start + k, pixels[from + k]);
                    k += 1;
                }
                proof {
                    assert forall|r: int, p: int|
                        #![trigger data@[p], self.row_start(ox as int, oz as int, r)]
                        0 <= r < row + 1 && self.row_visible(oz as int, r) && self.row_start(
                            ox as int,
                            oz as int,
                            r,
                        ) <= p < self.row_start(ox as int, oz as int, r) + stride implies data@[p]
                        == pixels@[r * stride + (p - self.row_start(ox as int, oz as int, r))] by {
                        if r < row {
                            lemma_rows_apart(
                                tex,
                                oz + r,
                                line as int,
                                left as int,
                                size as int,
                            );
                            lemma_row_in_texture(tex, oz + r, left as int, size as int);
                            assert(entry[p] == pixels@[r * stride + (p - self.row_start(
                                ox as int,
                                oz as int,
                                r,
                            ))]);
                        }
                    }
                    assert forall|p: int|
                        0 <= p < data@.len() && !(exists|r: int|
                            0 <= r < row + 1 && self.row_visible(oz as int, r)
                                && #[trigger] self.row_start(ox as int, oz as int, r) <= p
                                < self.row_start(ox as int, oz as int, r)
                                + stride) implies #[trigger] data@[p] == old(data)@[p] by {
                        if start <= p < start + stride {
                            assert(self.row_visible(oz as int, row as int));
                            assert(self.row_start(ox as int, oz as int, row as int) <= p);
                        } else {
                            assert(data@[p] == entry[p]);
                        }
                    }
                }
            } else {
                assert(!self.row_visible(oz as int, row as int));
            }
            row += 1;
        }
        proof {
            assert forall|p: int|
                0 <= p < old(data)@.len() && !self.covered(
                    ox as int,
                    oz as int,
                    p,
                ) implies #[trigger] data@[p] == old(data)@[p] by {
                if exists|r: int|
                    0 <= r < row && self.row_visible(oz as int, r) && #[trigger] self.row_start(
                        ox as int,
                        oz as int,
                        r,
                    ) <= p < self.row_start(ox as int, oz as int, r) + stride {
                    let r = choose|r: int|
                        0 <= r < row && self.row_visible(oz as int, r) && #[trigger] self.row_start(
                            ox as int,
                            oz as int,
                            r,
                        ) <= p < self.row_start(ox as int, oz as int, r) + stride;
                    assert(self.row_visible(oz as int, r) && self.row_start(
                        ox as int,
                        oz as int,
                        r,
                    ) <= p < self.row_start(ox as int, oz as int, r) + self.row_bytes());
                }
            }
        }
        true
    }
}

/// A chunk row that starts at column `left` of line `line` lies inside the
/// texture's bytes.
proof fn lemma_row_in_texture(tex: int, line: int, left: int, size: int)
    requires
        0 <= line < tex,
        0 <= left,
        0 <= size,
        left + size <= tex,
    ensures
        0 <= line * tex,
        0 <= (line * tex + left) * 4,
        (line * tex + left) * 4 + size * 4 <= tex * tex * 4,
{
    assert(0 <= line * tex && line * tex + tex <= tex * tex) by (nonlinear_arith)
        requires
            0 <= line < tex,
    ;
}

/// Row `row` of a chunk's pixels lies inside the pixel buffer.
proof fn lemma_row_in_pixels(size: int, row: int)
    requires
        0 <= row < size,
    ensures
        0 <= row * (size * 4),
        row * (size * 4) + size * 4 <= size * size * 4,
{
    assert(0 <= row * (size * 4) && row * (size * 4) + size * 4 <= size * size * 4)
        by (nonlinear_arith)
        requires
            0 <= row < size,
    ;
}

/// Rows on different lines of the texture do not overlap.
proof fn lemma_rows_apart(tex: int, first: int, second: int, left: int, size: int)
    requires
        first < second,
        0 <= left,
        0 <= size,
        left + size <= tex,
    ensures
        (first * tex + left) * 4 + size * 4 <= (second * tex + left) * 4,
{
    assert(first * tex + tex <= second * tex) by (nonlinear_arith)
        requires
            first < second,
            0 <= tex,
    ;
}

} // verus!
