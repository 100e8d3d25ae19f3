//! Chunk addresses on the XZ plane and their relation to world coordinates.

use vstd::prelude::*;

verus! {

/// Number of height samples along one edge of a chunk.
pub const CHUNK_SIZE: i32 = 32;

/// Number of chunks along one edge of a section.
pub const SECTION_SIZE: i32 = 32;

/// Tag that says which material a vertex belongs to.
pub type MaterialId = u32;

/// Address of a chunk on the XZ plane.
#[derive(Clone, Copy, Debug, PartialEq, Eq, Hash, Structural)]
pub struct XZCoords {
    pub x: i32,
    pub z: i32,
}

/// Chunk addresses are plain XZ pairs.
pub type ChunkCoords = XZCoords;

/// A sample position on the world's integer lattice.
#[derive(Clone, Copy, Debug, PartialEq, Eq, Hash, Structural)]
pub struct WorldPos {
    pub x: i64,
    pub z: i64,
}

/// Chunk index of a world coordinate: the floor of `world / CHUNK_SIZE`,
/// held to the range of chunk indices.
pub open spec fn chunk_index_of(world: int) -> int {
    let q = world / (CHUNK_SIZE as int);
    if q < i32::MIN {
        i32::MIN as int
    } else if q > i32::MAX {
        i32::MAX as int
    } else {
        q
    }
}

/// The four bytes of a chunk index, least significant first, negative
/// indices in two's complement.
pub open spec fn le_bytes_of(v: int) -> Seq<u8> {
    let u = if v < 0 {
        v + 0x1_0000_0000
    } else {
        v
    };
    seq![
        (u % 256) as u8,
        (u / 256 % 256) as u8,
        (u / 65536 % 256) as u8,
        (u / 16777216 % 256) as u8,
    ]
}

/// Absolute difference of two integers.
pub open spec fn abs_diff(a: int, b: int) -> int {
    if a <= b {
        b - a
    } else {
        a - b
    }
}

impl XZCoords {
    /// World position of the sample `(local_x, local_z)` of this chunk.
    pub open spec fn world_pos(self, local_x: int, local_z: int) -> WorldPos {
        WorldPos {
            x: (self.x * CHUNK_SIZE + local_x) as i64,
            z: (self.z * CHUNK_SIZE + local_z) as i64,
        }
    }

    /// True when `other` lies in the 3x3 block of chunks centred on `self`.
    pub open spec fn adjacent(self, other: XZCoords) -> bool {
        abs_diff(self.x as int, other.x as int) <= 1 && abs_diff(self.z as int, other.z as int) <= 1
    }

    /// The address on the wire: `x`, then `z`, four bytes each, least
    /// significant byte first.
    pub open spec fn le_bytes(self) -> Seq<u8> {
        le_bytes_of(self.x as int) + le_bytes_of(self.z as int)
    }

    /// Writes the address as it goes over the wire.
    pub fn to_le_bytes(&self) -> (bytes: [u8; 8])
        ensures
            bytes@ == self.le_bytes(),
    {
        let x = index_to_le_bytes(self.x);
        let z = index_to_le_bytes(self.z);
        let bytes = [x[0], x[1], x[2], x[3], z[0], z[1], z[2], z[3]];
        assert(bytes@ =~= self.le_bytes());
        bytes
    }

    /// Reads an address as it comes over the wire.
    pub fn from_le_bytes(bytes: [u8; 8]) -> (coord: XZCoords)
        ensures
            coord.le_bytes() == bytes@,
    {
        let x = index_from_le_bytes([bytes[0], bytes[1], bytes[2], bytes[3]]);
        let z = index_from_le_bytes([bytes[4], bytes[5], bytes[6], bytes[7]]);
        let coord = XZCoords { x, z };
        assert(coord.le_bytes() =~= bytes@);
        coord
    }

    /// Maps a chunk-local sample to its position in the world.
    pub fn to_world_pos(&self, local_x: i32, local_z: i32) -> (pos: WorldPos)
        ensures
            pos == self.world_pos(local_x as int, local_z as int),
            pos.x == self.x * CHUNK_SIZE + local_x,
            pos.z == self.z * CHUNK_SIZE + local_z,
    {
        let size: i64 = CHUNK_SIZE as i64;
        WorldPos {
            x: (self.x as i64) * size + (local_x as i64),
            z: (self.z as i64) * size + (local_z as i64),
        }
    }

    /// Tells whether `other` is this chunk or one of its eight neighbours.
    pub fn is_adjacent(&self, other: XZCoords) -> (near: bool)
        ensures
            near == self.adjacent(other),
    {
        let dx: i64 = self.x as i64 - other.x as i64;
        let dz: i64 = self.z as i64 - other.z as i64;
        -1 <= dx && dx <= 1 && -1 <= dz && dz <= 1
    }

    /// The chunk that holds the world position `(world_x, world_z)`.
    pub fn containing(world_x: i64, world_z: i64) -> (coord: XZCoords)
        ensures
            coord.x == chunk_index_of(world_x as int),
            coord.z == chunk_index_of(world_z as int),
    {
        XZCoords { x: chunk_index(world_x), z: chunk_index(world_z) }
    }
}

fn index_to_le_bytes(v: i32) -> (bytes: [u8; 4])
    ensures
        bytes@ == le_bytes_of(v as int),
{
    let u: u64 = if v < 0 {
        (v as i64 + 0x1_0000_0000) as u64
    } else {
        v as u64
    };
    let bytes = [
        (u % 256) as u8,
        (u / 256 % 256) as u8,
        (u / 65536 % 256) as u8,
        (u / 16777216 % 256) as u8,
    ];
    assert(bytes@ =~= le_bytes_of(v as int));
    bytes
}

fn index_from_le_bytes(bytes: [u8; 4]) -> (v: i32)
    ensures
        le_bytes_of(v as int) == bytes@,
{
    let u: i64 = bytes[0] as i64 + bytes[1] as i64 * 256 + bytes[2] as i64 * 65536 + bytes[3] as i64
        * 16777216;
    proof {
        lemma_bytes_of_word(bytes[0] as int, bytes[1] as int, bytes[2] as int, bytes[3] as int);
    }
    let v: i32 = if u >= 0x8000_0000 {
        (u - 0x1_0000_0000) as i32
    } else {
        u as i32
    };
    assert(le_bytes_of(v as int) =~= bytes@);
    v
}

/// The word made of four bytes, least significant first, splits back into
/// those bytes.
proof fn lemma_bytes_of_word(b0: int, b1: int, b2: int, b3: int)
    requires
        0 <= b0 < 256,
        0 <= b1 < 256,
        0 <= b2 < 256,
        0 <= b3 < 256,
    ensures
        0 <= b0 + b1 * 256 + b2 * 65536 + b3 * 16777216 < 0x1_0000_0000,
        (b0 + b1 * 256 + b2 * 65536 + b3 * 16777216) % 256 == b0,
        (b0 + b1 * 256 + b2 * 65536 + b3 * 16777216) / 256 % 256 == b1,
        (b0 + b1 * 256 + b2 * 65536 + b3 * 16777216) / 65536 % 256 == b2,
        (b0 + b1 * 256 + b2 * 65536 + b3 * 16777216) / 16777216 % 256 == b3,
{
    let t = b0 + b1 * 256 + b2 * 65536 + b3 * 16777216;
    let t1 = b1 + b2 * 256 + b3 * 65536;
    let t2 = b2 + b3 * 256;
    assert(t == t1 * 256 + b0);
    assert(t / 256 == t1 && t % 256 == b0);
    assert(t1 == t2 * 256 + b1);
    assert(t1 / 256 == t2 && t1 % 256 == b1);
    assert(t == t2 * 65536 + (b1 * 256 + b0));
    assert(t / 65536 == t2);
    assert(t2 / 256 == b3 && t2 % 256 == b2);
    assert(t == b3 * 16777216 + (b2 * 65536 + b1 * 256 + b0));
    assert(t / 16777216 == b3);
}

/// A word below `2^32` is made of its four bytes.
proof fn lemma_word_of_bytes(t: int)
    requires
        0 <= t < 0x1_0000_0000,
    ensures
        t == t % 256 + (t / 256 % 256) * 256 + (t / 65536 % 256) * 65536 + (t / 16777216 % 256)
            * 16777216,
{
    let q1 = t / 256;
    let q2 = t / 65536;
    let q3 = t / 16777216;
    assert(t == q1 * 256 + t % 256);
    assert(q2 == q1 / 256);
    assert(q1 == q2 * 256 + q1 % 256);
    assert(q3 == q2 / 256);
    assert(q2 == q3 * 256 + q2 % 256);
    assert(0 <= q3 < 256);
}

/// No two addresses share their bytes on the wire, so an address that was
/// written reads back as itself.
pub proof fn lemma_le_bytes_determine_the_address(a: XZCoords, b: XZCoords)
    ensures
        a.le_bytes().len() == 8,
        a.le_bytes() == b.le_bytes() ==> a == b,
{
    if a.le_bytes() == b.le_bytes() {
        let ax = le_bytes_of(a.x as int);
        let az = le_bytes_of(a.z as int);
        let bx = le_bytes_of(b.x as int);
        let bz = le_bytes_of(b.z as int);
        assert forall|k: int| 0 <= k < 4 implies ax[k] == bx[k] && az[k] == bz[k] by {
            assert(a.le_bytes()[k] == ax[k]);
            assert(b.le_bytes()[k] == bx[k]);
            assert(a.le_bytes()[k + 4] == az[k]);
            assert(b.le_bytes()[k + 4] == bz[k]);
        }
        lemma_index_bytes_injective(a.x as int, b.x as int);
        lemma_index_bytes_injective(a.z as int, b.z as int);
    }
}

proof fn lemma_index_bytes_injective(v: int, w: int)
    requires
        i32::MIN <= v <= i32::MAX,
        i32::MIN <= w <= i32::MAX,
        le_bytes_of(v)[0] == le_bytes_of(w)[0],
        le_bytes_of(v)[1] == le_bytes_of(w)[1],
        le_bytes_of(v)[2] == le_bytes_of(w)[2],
        le_bytes_of(v)[3] == le_bytes_of(w)[3],
    ensures
        v == w,
{
    let s = if v < 0 {
        v + 0x1_0000_0000
    } else {
        v
    };
    let t = if w < 0 {
        w + 0x1_0000_0000
    } else {
        w
    };
    lemma_word_of_bytes(s);
    lemma_word_of_bytes(t);
    assert(s % 256 == t % 256);
    assert(s / 256 % 256 == t / 256 % 256);
    assert(s / 65536 % 256 == t / 65536 % 256);
    assert(s / 16777216 % 256 == t / 16777216 % 256);
    assert(s == t);
}

/// Floor division of a world coordinate by the chunk size, saturating at the
/// ends of the chunk index range.
pub fn chunk_index(world: i64) -> (index: i32)
    ensures
        index == chunk_index_of(world as int),
{
    let size: i64 = CHUNK_SIZE as i64;
    let q: i64 = if world >= 0 {
        world / size
    } else {
        -1 - (-(world + 1)) / size
    };
    if q < i32::MIN as i64 {
        i32::MIN
    } else if q > i32::MAX as i64 {
        i32::MAX
    } else {
        q as i32
    }
}

} // verus!
