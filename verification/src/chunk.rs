//! A chunk: a cube of blocks, and how a block at or just beyond its border is
//! looked up.

use vstd::prelude::*;
use vstd::array::spec_array_update;
use crate::block::BlockType;
use crate::coords::{IVec3, UVec3};

verus! {

/// The number of blocks along an edge of a chunk.
pub const CHUNK_SIZE: usize = 32;

/// The number of blocks in a layer of a chunk.
pub const CHUNK_AREA: usize = 1024;

/// The number of blocks in a chunk.
pub const CHUNK_VOLUME: usize = 32768;

/// The number of chunks in a chunk's neighbourhood, itself included.
pub const NEIGHBORHOOD: usize = 27;

/// A cube of `CHUNK_SIZE` blocks along each edge. The block at `(x, y, z)` is
/// stored at `x + CHUNK_SIZE * y + CHUNK_AREA * z`.
#[derive(Debug)]
pub struct Chunk {
    pub blocks: [BlockType; CHUNK_VOLUME],
}

/// Where the block at `(x, y, z)` is stored.
pub open spec fn block_index(x: int, y: int, z: int) -> int {
    x + 32 * y + 1024 * z
}

/// Whether `(x, y, z)` names a block of a chunk.
pub open spec fn in_chunk(x: int, y: int, z: int) -> bool {
    0 <= x < 32 && 0 <= y < 32 && 0 <= z < 32
}

/// The `x` coordinate of the block stored at `i`.
pub open spec fn cell_x(i: int) -> int {
    i % 32
}

/// The `y` coordinate of the block stored at `i`.
pub open spec fn cell_y(i: int) -> int {
    (i / 32) % 32
}

/// The `z` coordinate of the block stored at `i`.
pub open spec fn cell_z(i: int) -> int {
    i / 1024
}

/// The index of a block is made of its coordinates, and of nothing else.
pub proof fn lemma_cell_index(i: int)
    requires
        0 <= i < 32768,
    ensures
        i == block_index(cell_x(i), cell_y(i), cell_z(i)),
        in_chunk(cell_x(i), cell_y(i), cell_z(i)),
{
}

/// The coordinates of a block are found again in its index.
pub proof fn lemma_index_cell(x: int, y: int, z: int)
    requires
        in_chunk(x, y, z),
    ensures
        0 <= block_index(x, y, z) < 32768,
        cell_x(block_index(x, y, z)) == x,
        cell_y(block_index(x, y, z)) == y,
        cell_z(block_index(x, y, z)) == z,
{
}

/// Along one axis: 0 where a coordinate lies below the chunk, 1 where it lies
/// inside and 2 where it lies above.
pub open spec fn border_side(v: int) -> int {
    if v > 31 {
        2
    } else if v < 0 {
        0
    } else {
        1
    }
}

/// Along one axis: the coordinate as the chunk that holds it sees it.
pub open spec fn border_wrap(v: int) -> int {
    if v > 31 {
        0
    } else if v < 0 {
        31
    } else {
        v
    }
}

/// The place in a neighbourhood of the chunk that holds a position.
pub open spec fn border_neighbor(x: int, y: int, z: int) -> int {
    border_side(x) + 3 * border_side(y) + 9 * border_side(z)
}

/// The place in a neighbourhood of the chunk that lies `(dx, dy, dz)` chunks
/// away from the middle one, each of them -1, 0 or 1.
pub open spec fn neighbor_index(dx: int, dy: int, dz: int) -> int {
    (dx + 1) + 3 * (dy + 1) + 9 * (dz + 1)
}

impl UVec3 {
    /// Whether the position names a block of a chunk.
    pub open spec fn in_chunk(self) -> bool {
        self.x < CHUNK_SIZE && self.y < CHUNK_SIZE && self.z < CHUNK_SIZE
    }

    /// Where a chunk stores the block at this position.
    pub open spec fn index(self) -> int {
        block_index(self.x as int, self.y as int, self.z as int)
    }

    /// Where a chunk stores the block at this position.
    pub fn to_index(self) -> (i: usize)
        requires
            self.in_chunk(),
        ensures
            i == self.index(),
            i < CHUNK_VOLUME,
    {
        self.x + CHUNK_SIZE * self.y + CHUNK_AREA * self.z
    }
}

/// Whether every position of a list of blocks to put lies inside a chunk.
pub open spec fn changes_in_chunk(changes: Seq<(UVec3, BlockType)>) -> bool {
    forall|i: int| 0 <= i < changes.len() ==> (#[trigger] changes[i]).0.in_chunk()
}

impl Clone for Chunk {
    fn clone(&self) -> (c: Self)
        ensures
            c == *self,
    {
        Chunk { blocks: self.blocks }
    }
}

impl Chunk {
    /// The block at a position inside the chunk.
    pub open spec fn spec_get_block(self, p: UVec3) -> BlockType {
        self.blocks@[p.index()]
    }

    /// The block at `(x, y, z)` inside the chunk.
    pub open spec fn block_at(self, x: int, y: int, z: int) -> BlockType {
        self.blocks@[block_index(x, y, z)]
    }

    /// The chunk with another block at a position.
    pub open spec fn spec_set_block(self, b: BlockType, p: UVec3) -> Chunk {
        Chunk { blocks: spec_array_update(self.blocks, p.index(), b) }
    }

    /// The chunk after the blocks of a list were put into it, one after the
    /// other.
    pub open spec fn spec_edited(self, changes: Seq<(UVec3, BlockType)>) -> Chunk
        decreases changes.len(),
    {
        if changes.len() == 0 {
            self
        } else {
            self.spec_edited(changes.drop_last()).spec_set_block(
                changes.last().1,
                changes.last().0,
            )
        }
    }

    /// Whether the chunk holds nothing but air.
    pub open spec fn all_air(self) -> bool {
        forall|i: int| 0 <= i < CHUNK_VOLUME ==> self.blocks@[i] == BlockType::Air
    }

    /// The block at a position that may lie one block outside of the chunk:
    /// the chunk's own block where the position is inside, and else the block
    /// on the facing border of the neighbour that holds it.
    pub open spec fn spec_get_block_border(self, neighbors: Seq<Chunk>, p: IVec3) -> BlockType {
        let x = border_wrap(p.x as int);
        let y = border_wrap(p.y as int);
        let z = border_wrap(p.z as int);
        if in_chunk(p.x as int, p.y as int, p.z as int) {
            self.block_at(x, y, z)
        } else {
            neighbors[border_neighbor(p.x as int, p.y as int, p.z as int)].block_at(x, y, z)
        }
    }

    /// A chunk of air.
    pub fn new() -> (c: Chunk)
        ensures
            c.all_air(),
    {
        Chunk { blocks: [BlockType::Air;CHUNK_VOLUME] }
    }

    /// The block at a position inside the chunk.
    #[inline]
    pub fn get_block(&self, position: UVec3) -> (b: BlockType)
        requires
            position.in_chunk(),
        ensures
            b == self.spec_get_block(position),
    {
        self.blocks[position.to_index()]
    }

    /// Puts a block at a position inside the chunk.
    #[inline]
    pub fn set_block(&mut self, new_block: BlockType, position: UVec3)
        requires
            position.in_chunk(),
        ensures
            final(self).blocks@ == old(self).blocks@.update(position.index(), new_block),
            *final(self) == old(self).spec_set_block(new_block, position),
    {
        let i: usize = position.to_index();
        self.blocks[i] = new_block;
        assert(self.blocks =~= spec_array_update(old(self).blocks, position.index(), new_block));
    }

    /// Puts the blocks of a list into the chunk, one after the other.
    pub fn apply_changes(&mut self, changes: &Vec<(UVec3, BlockType)>)
        requires
            changes_in_chunk(changes@),
        ensures
            *final(self) == old(self).spec_edited(changes@),
    {
        let mut i: usize = 0;
        while i < changes.len()
            invariant
                i <= changes.len(),
                changes_in_chunk(changes@),
                *self == old(self).spec_edited(changes@.take(i as int)),
            decreases changes.len() - i,
        {
            let change = changes[i];
            proof {
                assert(changes@.take(i + 1).drop_last() =~= changes@.take(i as int));
            }
            self.set_block(change.1, change.0);
            i += 1;
        }
        proof {
            assert(changes@.take(changes@.len() as int) =~= changes@);
        }
    }

    /// Looks a block up at a position whose coordinates run from -1 to
    /// `CHUNK_SIZE`. `neighbors` lists the 27 chunks around this one, this one
    /// included, the one at `(dx, dy, dz)` at `neighbor_index(dx, dy, dz)`; it
    /// is not read for a position inside the chunk.
    #[inline]
    pub fn get_block_border(&self, neighbors: &[Chunk], position: IVec3) -> (b: BlockType)
        requires
            -1 <= position.x <= CHUNK_SIZE,
            -1 <= position.y <= CHUNK_SIZE,
            -1 <= position.z <= CHUNK_SIZE,
            in_chunk(position.x as int, position.y as int, position.z as int) || neighbors@.len()
                == NEIGHBORHOOD,
        ensures
            b == self.spec_get_block_border(neighbors@, position),
    {
        let mut nx: usize = 1;
        let mut ny: usize = 1;
        let mut nz: usize = 1;
        let mut bx: usize = 0;
        let mut by: usize = 0;
        let mut bz: usize = 0;
        let max_b: i32 = 31;

        if position.y > max_b {
            ny = 2;
        } else if position.y < 0 {
            ny = 0;
            by = CHUNK_SIZE - 1;
        } else {
            by = position.y as usize;
        }
        if position.z > max_b {
            nz = 2;
        } else if position.z < 0 {
            nz = 0;
            bz = CHUNK_SIZE - 1;
        } else {
            bz = position.z as usize;
        }
        if position.x > max_b {
            nx = 2;
        } else if position.x < 0 {
            nx = 0;
            bx = CHUNK_SIZE - 1;
        } else {
            bx = position.x as usize;
        }

        let b = UVec3 { x: bx, y: by, z: bz };
        if nx == 1 && ny == 1 && nz == 1 {
            self.get_block(b)
        } else {
            neighbors[nx + ny * 3 + 9 * nz].get_block(b)
        }
    }

    /// Replaces every block of the chunk.
    pub fn set(&mut self, blocks: [BlockType; CHUNK_VOLUME])
        ensures
            final(self).blocks == blocks,
    {
        self.blocks = blocks;
    }

    /// Whether the chunk holds nothing but air.
    pub fn is_empty(&self) -> (r: bool)
        ensures
            r == self.all_air(),
    {
        let mut i: usize = 0;
        while i < CHUNK_VOLUME
            invariant
                i <= CHUNK_VOLUME,
                forall|j: int| 0 <= j < i ==> self.blocks@[j] == BlockType::Air,
            decreases CHUNK_VOLUME - i,
        {
            if self.blocks[i] != BlockType::Air {
                return false;
            }
            i += 1;
        }
        true
    }
}

/// A chunk together with the note whether it holds nothing but air. The note
/// is made when the value is made, and a value is never changed afterwards,
/// so the note is always true of the chunk.
#[derive(Debug)]
pub struct ChunkData {
    chunk: Chunk,
    is_empty: bool,
}

impl ChunkData {
    #[verifier::type_invariant]
    spec fn noted(self) -> bool {
        self.is_empty == self.chunk.all_air()
    }

    /// The chunk that the value holds.
    pub closed spec fn spec_chunk(self) -> Chunk {
        self.chunk
    }

    /// Takes a chunk and notes whether it is empty.
    pub fn new(chunk: Chunk) -> (data: ChunkData)
        ensures
            data.spec_chunk() == chunk,
    {
        let is_empty = chunk.is_empty();
        ChunkData { chunk, is_empty }
    }

    /// The chunk that the value holds.
    pub fn chunk(&self) -> (chunk: &Chunk)
        ensures
            *chunk == self.spec_chunk(),
    {
        &self.chunk
    }

    /// Gives the chunk back.
    pub fn into_chunk(self) -> (chunk: Chunk)
        ensures
            chunk == self.spec_chunk(),
    {
        self.chunk
    }

    /// Whether the chunk holds nothing but air.
    pub fn is_empty(&self) -> (r: bool)
        ensures
            r == self.spec_chunk().all_air(),
    {
        proof {
            use_type_invariant(self);
        }
        self.is_empty
    }
}

impl Clone for ChunkData {
    fn clone(&self) -> (data: Self)
        ensures
            data.spec_chunk() == self.spec_chunk(),
    {
        proof {
            use_type_invariant(self);
        }
        ChunkData { chunk: self.chunk.clone(), is_empty: self.is_empty }
    }
}

/// A chunk into which a block that is not air was put is not empty, and
/// holds that block where it was put.
pub proof fn lemma_block_fills_chunk(chunk: Chunk, b: BlockType, p: UVec3)
    requires
        p.in_chunk(),
    ensures
        chunk.spec_set_block(b, p).spec_get_block(p) == b,
        b != BlockType::Air ==> !chunk.spec_set_block(b, p).all_air(),
{
    let after = chunk.spec_set_block(b, p);
    assert(after.blocks@ == chunk.blocks@.update(p.index(), b));
    assert(after.blocks@[p.index()] == b);
}

/// A position inside the chunk is looked up in the chunk itself, whatever the
/// neighbours are.
pub proof fn lemma_border_inside(chunk: Chunk, neighbors: Seq<Chunk>, p: UVec3)
    requires
        p.in_chunk(),
    ensures
        chunk.spec_get_block_border(
            neighbors,
            IVec3 { x: p.x as i32, y: p.y as i32, z: p.z as i32 },
        ) == chunk.spec_get_block(p),
{
}

/// Looking a position up that lies outside of the chunk reads the chunk that
/// lies in that direction, at the block that faces this chunk.
pub proof fn lemma_border_outside(chunk: Chunk, neighbors: Seq<Chunk>, p: IVec3)
    requires
        -1 <= p.x <= 32,
        -1 <= p.y <= 32,
        -1 <= p.z <= 32,
        !in_chunk(p.x as int, p.y as int, p.z as int),
    ensures
        ({
            let dx = border_side(p.x as int) - 1;
            let dy = border_side(p.y as int) - 1;
            let dz = border_side(p.z as int) - 1;
            &&& neighbor_index(dx, dy, dz) != neighbor_index(0, 0, 0)
            &&& 0 <= neighbor_index(dx, dy, dz) < 27
            &&& chunk.spec_get_block_border(neighbors, p) == neighbors[neighbor_index(
                dx,
                dy,
                dz,
            )].block_at(p.x - 32 * dx, p.y - 32 * dy, p.z - 32 * dz)
        }),
{
}

} // verus!
