//! Terrain generation: from the ground heights of a chunk's columns to its
//! blocks, with a surface of sand or grass and a scattering of trees.

use vstd::prelude::*;
use rand::rngs::StdRng;
use rand::Rng;
use crate::block::BlockType;
use crate::chunk::{
    block_index, cell_x, cell_y, cell_z, in_chunk, lemma_cell_index, lemma_index_cell, Chunk,
    ChunkData, CHUNK_AREA, CHUNK_SIZE, CHUNK_VOLUME,
};
use crate::coords::IVec3;

verus! {

/// Every block at or below this world height is solid, whatever the ground.
pub const SEA_LEVEL: i64 = 40;

/// A surface block below this world height is sand, one at or above it grass.
pub const BEACH_LEVEL: i64 = 42;

/// One grass block out of this many grows a tree.
pub const TREE_ODDS: u32 = 100;

/// Whether the block stored at `i` lies in the box of the blocks from `lo` to
/// `hi`, both included, along each axis.
pub open spec fn in_box(i: int, lo: (int, int, int), hi: (int, int, int)) -> bool {
    &&& lo.0 <= cell_x(i) <= hi.0
    &&& lo.1 <= cell_y(i) <= hi.1
    &&& lo.2 <= cell_z(i) <= hi.2
}

/// The blocks with every block of a box replaced by `b`.
pub open spec fn with_box(
    blocks: Seq<BlockType>,
    lo: (int, int, int),
    hi: (int, int, int),
    b: BlockType,
) -> Seq<BlockType> {
    Seq::new(
        blocks.len(),
        |i: int|
            if in_box(i, lo, hi) {
                b
            } else {
                blocks[i]
            },
    )
}

/// Replaces by `b` every block of the chunk that lies in the box from `lo` to
/// `hi`. The box may reach beyond the chunk; what lies outside is left out.
pub fn fill_box(
    blocks: &mut [BlockType; CHUNK_VOLUME],
    lo: (i32, i32, i32),
    hi: (i32, i32, i32),
    b: BlockType,
)
    ensures
        final(blocks)@ == with_box(
            old(blocks)@,
            (lo.0 as int, lo.1 as int, lo.2 as int),
            (hi.0 as int, hi.1 as int, hi.2 as int),
            b,
        ),
{
    let size: i32 = 32;
    let x0: i32 = if lo.0 < 0 { 0 } else { lo.0 };
    let y0: i32 = if lo.1 < 0 { 0 } else { lo.1 };
    let z0: i32 = if lo.2 < 0 { 0 } else { lo.2 };
    let x1: i32 = if hi.0 >= size { size - 1 } else { hi.0 };
    let y1: i32 = if hi.1 >= size { size - 1 } else { hi.1 };
    let z1: i32 = if hi.2 >= size { size - 1 } else { hi.2 };
    let ghost start = blocks@;
    let ghost glo = (lo.0 as int, lo.1 as int, lo.2 as int);
    let ghost ghi = (hi.0 as int, hi.1 as int, hi.2 as int);
    let mut y: i32 = y0;
    while y <= y1
        invariant
            0 <= y0 <= y,
            y1 < 32,
            y <= y1 + 1 || y == y0,
            x0 == (if lo.0 < 0 { 0 } else { lo.0 }),
            z0 == (if lo.2 < 0 { 0 } else { lo.2 }),
            y0 == (if lo.1 < 0 { 0 } else { lo.1 }),
            x1 == (if hi.0 >= 32 { 31 } else { hi.0 }),
            y1 == (if hi.1 >= 32 { 31 } else { hi.1 }),
            z1 == (if hi.2 >= 32 { 31 } else { hi.2 }),
            glo == (lo.0 as int, lo.1 as int, lo.2 as int),
            start.len() == 32768,
            ghi == (hi.0 as int, hi.1 as int, hi.2 as int),
            forall|i: int|
                0 <= i < 32768 ==> #[trigger] blocks@[i] == (if in_box(i, glo, ghi) && cell_y(i) < y {
                    b
                } else {
                    start[i]
                }),
        decreases y1 + 1 - y,
    {
        let mut x: i32 = x0;
        while x <= x1
            invariant
                0 <= y0 <= y <= y1 < 32,
                0 <= x0 <= x,
                x1 < 32,
                x0 == (if lo.0 < 0 { 0 } else { lo.0 }),
                z0 == (if lo.2 < 0 { 0 } else { lo.2 }),
                y0 == (if lo.1 < 0 { 0 } else { lo.1 }),
                x1 == (if hi.0 >= 32 { 31 } else { hi.0 }),
                y1 == (if hi.1 >= 32 { 31 } else { hi.1 }),
                z1 == (if hi.2 >= 32 { 31 } else { hi.2 }),
                glo == (lo.0 as int, lo.1 as int, lo.2 as int),
                start.len() == 32768,
                ghi == (hi.0 as int, hi.1 as int, hi.2 as int),
                forall|i: int|
                    0 <= i < 32768 ==> #[trigger] blocks@[i] == (if in_box(i, glo, ghi) && (cell_y(i) < y || (
                    cell_y(i) == y && cell_x(i) < x)) {
                        b
                    } else {
                        start[i]
                    }),
            decreases x1 + 1 - x,
        {
            let mut z: i32 = z0;
            while z <= z1
                invariant
                    0 <= y0 <= y <= y1 < 32,
                    0 <= x0 <= x <= x1 < 32,
                    0 <= z0 <= z,
                    z1 < 32,
                    x0 == (if lo.0 < 0 { 0 } else { lo.0 }),
                    z0 == (if lo.2 < 0 { 0 } else { lo.2 }),
                    y0 == (if lo.1 < 0 { 0 } else { lo.1 }),
                    x1 == (if hi.0 >= 32 { 31 } else { hi.0 }),
                    y1 == (if hi.1 >= 32 { 31 } else { hi.1 }),
                    z1 == (if hi.2 >= 32 { 31 } else { hi.2 }),
                    glo == (lo.0 as int, lo.1 as int, lo.2 as int),
                    start.len() == 32768,
                    ghi == (hi.0 as int, hi.1 as int, hi.2 as int),
                    forall|i: int|
                        0 <= i < 32768 ==> #[trigger] blocks@[i] == (if in_box(i, glo, ghi) && (cell_y(i) < y
                            || (cell_y(i) == y && cell_x(i) < x) || (cell_y(i) == y && cell_x(i)
                            == x && cell_z(i) < z)) {
                            b
                        } else {
                            start[i]
                        }),
                decreases z1 + 1 - z,
            {
                let i: usize = x as usize + CHUNK_SIZE * (y as usize) + CHUNK_AREA * (z as usize);
                proof {
                    lemma_index_cell(x as int, y as int, z as int);
                }
                blocks[i] = b;
                z += 1;
            }
            x += 1;
        }
        y += 1;
    }
    assert(blocks@ =~= with_box(start, glo, ghi, b));
}

/// What a tree puts at `(dx, dy, dz)` from the grass block that it grows on:
/// a trunk of three blocks of wood, a canopy of leaves five blocks wide on the
/// two levels above the trunk, and a cap of leaves three blocks wide on top.
pub open spec fn tree_part(dx: int, dy: int, dz: int) -> Option<BlockType> {
    if 4 <= dy <= 5 && -2 <= dx <= 2 && -2 <= dz <= 2 {
        Some(BlockType::Leaves)
    } else if dy == 6 && -1 <= dx <= 1 && -1 <= dz <= 1 {
        Some(BlockType::Leaves)
    } else if dx == 0 && dz == 0 && 1 <= dy <= 3 {
        Some(BlockType::Wood)
    } else {
        None
    }
}

/// The blocks with a tree on the block at `(x, y, z)`. The tree replaces
/// whatever stood in its place and ends where the chunk ends.
pub open spec fn with_tree(blocks: Seq<BlockType>, x: int, y: int, z: int) -> Seq<BlockType> {
    Seq::new(
        blocks.len(),
        |i: int|
            match tree_part(cell_x(i) - x, cell_y(i) - y, cell_z(i) - z) {
                Some(b) => b,
                None => blocks[i],
            },
    )
}

/// Grows a tree on the block at `(x, y, z)`.
pub fn place_tree(blocks: &mut [BlockType; CHUNK_VOLUME], x: usize, y: usize, z: usize)
    requires
        x < CHUNK_SIZE,
        y < CHUNK_SIZE,
        z < CHUNK_SIZE,
    ensures
        final(blocks)@ == with_tree(old(blocks)@, x as int, y as int, z as int),
{
    let tx: i32 = x as i32;
    let ty: i32 = y as i32;
    let tz: i32 = z as i32;
    let ghost start = blocks@;
    fill_box(blocks, (tx, ty + 1, tz), (tx, ty + 5, tz), BlockType::Wood);
    fill_box(blocks, (tx - 2, ty + 4, tz - 2), (tx + 2, ty + 5, tz + 2), BlockType::Leaves);
    fill_box(blocks, (tx - 1, ty + 6, tz - 1), (tx + 1, ty + 6, tz + 1), BlockType::Leaves);
    assert(blocks@ =~= with_tree(start, x as int, y as int, z as int));
}

/// The world height from which a column with ground height `h` is air: the
/// ground, or what lies above the sea level where the ground is lower.
pub open spec fn ground_level(h: int) -> int {
    if h > SEA_LEVEL + 1 {
        h
    } else {
        SEA_LEVEL + 1
    }
}

/// The highest solid block of a column inside a chunk whose lowest blocks lie
/// at world height `base`, or -1 where the whole column is air.
pub open spec fn column_top(base: int, h: int) -> int {
    let t = ground_level(h) - base;
    if t <= 0 {
        -1
    } else if t >= 32 {
        31
    } else {
        t - 1
    }
}

/// The block at height `y` of a column before trees grow: air above the
/// column's top; at the top sand below the beach level and grass from it on;
/// two blocks of dirt under grass; stone elsewhere.
pub open spec fn terrain_block(base: int, h: int, y: int) -> BlockType {
    let top = column_top(base, h);
    if y > top {
        BlockType::Air
    } else if y == top {
        if base + top < BEACH_LEVEL {
            BlockType::Sand
        } else {
            BlockType::Grass
        }
    } else if base + top >= BEACH_LEVEL && y >= top - 2 {
        BlockType::Dirt
    } else {
        BlockType::Stone
    }
}

/// The blocks of a chunk at chunk height `chunk_y` before trees grow. The
/// ground height of the column at `(x, z)` is `heights[x + 32 * z]`.
pub open spec fn spec_shape_terrain(chunk_y: int, heights: Seq<i32>) -> Seq<BlockType> {
    Seq::new(
        CHUNK_VOLUME as nat,
        |i: int| terrain_block(32 * chunk_y, heights[cell_x(i) + 32 * cell_z(i)] as int, cell_y(i)),
    )
}

/// Whether the block at height `y` of a column is solid before its surface
/// is laid.
pub open spec fn raw_solid(base: int, h: int, y: int) -> bool {
    base + y < h || base + y <= SEA_LEVEL
}

/// The block at height `y` of a column before its surface is laid.
pub open spec fn raw_block(base: int, h: int, y: int) -> BlockType {
    if raw_solid(base, h, y) {
        BlockType::Stone
    } else {
        BlockType::Air
    }
}

/// Lays the surface of the column at `(x, z)`: finds its highest solid block
/// and turns it into sand or grass, with dirt under grass.
fn surface_column(
    blocks: &mut [BlockType; CHUNK_VOLUME],
    x: usize,
    z: usize,
    base: i64,
    Ghost(h): Ghost<int>,
)
    requires
        x < CHUNK_SIZE,
        z < CHUNK_SIZE,
        -0x100_0000_0000 <= base <= 0x100_0000_0000,
        forall|j: int|
            0 <= j < 32768 && cell_x(j) == x && cell_z(j) == z ==> #[trigger] old(blocks)@[j]
                == raw_block(base as int, h, cell_y(j)),
    ensures
        forall|j: int|
            0 <= j < 32768 ==> #[trigger] final(blocks)@[j] == (if cell_x(j) == x && cell_z(j)
                == z {
                terrain_block(base as int, h, cell_y(j))
            } else {
                old(blocks)@[j]
            }),
{
    let ghost top = column_top(base as int, h);
    let ghost start = blocks@;
    let mut max_y: usize = 0;
    let mut not_air: bool = false;
    let mut y: usize = 0;
    while y < CHUNK_SIZE
        invariant
            x < CHUNK_SIZE,
            z < CHUNK_SIZE,
            y <= CHUNK_SIZE,
            max_y < CHUNK_SIZE,
            top == column_top(base as int, h),
            blocks@ == start,
            not_air == (top >= 0 && y > 0),
            not_air ==> max_y == (if top < y { top } else { y - 1 }),
            forall|j: int|
                0 <= j < 32768 && cell_x(j) == x && cell_z(j) == z ==> #[trigger] start[j]
                    == raw_block(base as int, h, cell_y(j)),
        decreases CHUNK_SIZE - y,
    {
        proof {
            lemma_index_cell(x as int, y as int, z as int);
        }
        match blocks[x + y * CHUNK_SIZE + z * CHUNK_AREA] {
            BlockType::Air => {},
            _ => {
                max_y = y;
                not_air = true;
            },
        }
        y += 1;
    }
    let ghost i0 = block_index(x as int, max_y as int, z as int);
    let ghost i1 = block_index(x as int, max_y - 1, z as int);
    let ghost i2 = block_index(x as int, max_y - 2, z as int);
    proof {
        lemma_index_cell(x as int, max_y as int, z as int);
        if max_y >= 1 {
            lemma_index_cell(x as int, max_y - 1, z as int);
        }
        if max_y >= 2 {
            lemma_index_cell(x as int, max_y - 2, z as int);
        }
    }
    if not_air {
        let top_height: i64 = base + max_y as i64;
        if top_height < BEACH_LEVEL {
            blocks[x + max_y * CHUNK_SIZE + z * CHUNK_AREA] = BlockType::Sand;
            assert(blocks@ == start.update(i0, BlockType::Sand));
        } else {
            blocks[x + max_y * CHUNK_SIZE + z * CHUNK_AREA] = BlockType::Grass;
            if max_y >= 2 {
                blocks[x + (max_y - 1) * CHUNK_SIZE + z * CHUNK_AREA] = BlockType::Dirt;
                blocks[x + (max_y - 2) * CHUNK_SIZE + z * CHUNK_AREA] = BlockType::Dirt;
                assert(blocks@ == start.update(i0, BlockType::Grass).update(
                    i1,
                    BlockType::Dirt,
                ).update(i2, BlockType::Dirt));
            } else if max_y >= 1 {
                blocks[x + (max_y - 1) * CHUNK_SIZE + z * CHUNK_AREA] = BlockType::Dirt;
                assert(blocks@ == start.update(i0, BlockType::Grass).update(i1, BlockType::Dirt));
            } else {
                assert(blocks@ == start.update(i0, BlockType::Grass));
            }
        }
    }
    assert forall|j: int| 0 <= j < 32768 implies #[trigger] blocks@[j] == (if cell_x(j) == x
        && cell_z(j) == z {
        terrain_block(base as int, h, cell_y(j))
    } else {
        start[j]
    }) by {
        lemma_cell_index(j);
    }
}

/// The block stored at `j` before the surface of its column is laid.
pub open spec fn raw_cell(base: int, heights: Seq<i32>, j: int) -> BlockType {
    raw_block(base, heights[cell_x(j) + 32 * cell_z(j)] as int, cell_y(j))
}

/// The block stored at `j` once the surface of its column is laid.
pub open spec fn shaped_cell(base: int, heights: Seq<i32>, j: int) -> BlockType {
    terrain_block(base, heights[cell_x(j) + 32 * cell_z(j)] as int, cell_y(j))
}

/// Shapes the ground of a chunk: stone below the ground height of each
/// column and up to the sea level, then a surface on each column's top.
pub fn shape_terrain(chunk_pos: IVec3, heights: &[i32; CHUNK_AREA]) -> (blocks: [BlockType;
    CHUNK_VOLUME])
    ensures
        blocks@ == spec_shape_terrain(chunk_pos.y as int, heights@),
{
    let base: i64 = chunk_pos.y as i64 * 32;
    let mut blocks: [BlockType; CHUNK_VOLUME] = [BlockType::Air;CHUNK_VOLUME];
    let mut i: usize = 0;
    while i < CHUNK_VOLUME
        invariant
            i <= CHUNK_VOLUME,
            base == chunk_pos.y * 32,
            forall|j: int|
                0 <= j < 32768 ==> #[trigger] blocks@[j] == (if j < i {
                    raw_cell(base as int, heights@, j)
                } else {
                    BlockType::Air
                }),
        decreases CHUNK_VOLUME - i,
    {
        let x: usize = i % CHUNK_SIZE;
        let y: usize = (i / CHUNK_SIZE) % CHUNK_SIZE;
        let z: usize = i / CHUNK_AREA;
        let h: i64 = heights[x + CHUNK_SIZE * z] as i64;
        let world_y: i64 = base + y as i64;
        if h > world_y || world_y <= SEA_LEVEL {
            blocks[i] = BlockType::Stone;
        }
        i += 1;
    }
    let mut x: usize = 0;
    while x < CHUNK_SIZE
        invariant
            x <= CHUNK_SIZE,
            base == chunk_pos.y * 32,
            forall|j: int|
                0 <= j < 32768 ==> #[trigger] blocks@[j] == (if cell_x(j) < x {
                    shaped_cell(base as int, heights@, j)
                } else {
                    raw_cell(base as int, heights@, j)
                }),
        decreases CHUNK_SIZE - x,
    {
        let mut z: usize = 0;
        while z < CHUNK_SIZE
            invariant
                x < CHUNK_SIZE,
                z <= CHUNK_SIZE,
                base == chunk_pos.y * 32,
                forall|j: int|
                    0 <= j < 32768 ==> #[trigger] blocks@[j] == (if cell_x(j) < x || (cell_x(j) == x
                        && cell_z(j) < z) {
                        shaped_cell(base as int, heights@, j)
                    } else {
                        raw_cell(base as int, heights@, j)
                    }),
            decreases CHUNK_SIZE - z,
        {
            surface_column(&mut blocks, x, z, base, Ghost(heights@[x + 32 * z] as int));
            z += 1;
        }
        x += 1;
    }
    assert(blocks@ =~= spec_shape_terrain(chunk_pos.y as int, heights@));
    blocks
}

/// The generator of random numbers that decides where trees grow.
#[verifier::external_type_specification]
#[verifier::external_body]
pub struct ExStdRng(rand::rngs::StdRng);

/// Draws a number with `rand::Rng::gen_range` from the range `0..bound`. The
/// number is below `bound`; nothing else is known of it. The range must not
/// be empty.
#[verifier::external_body]
fn random_below(rng: &mut StdRng, bound: u32) -> (r: u32)
    requires
        bound > 0,
    ensures
        r < bound,
{
    rng.gen_range(0..bound)
}

/// A generated chunk and the coordinate that it was generated for.
#[derive(Debug)]
pub struct ChunkGenResponse {
    pub position: IVec3,
    pub data: ChunkData,
}

/// The index of the block that the tree pass visits at a step: it walks
/// along `z` first, then up along `y`, then along `x`.
pub open spec fn step_index(step: int) -> int {
    block_index(step / 1024, (step / 32) % 32, step % 32)
}

/// The blocks after the tree pass has visited the block stored at `i`: with
/// a tree on it where it is grass and the lot fell on it.
pub open spec fn decorate_cell(blocks: Seq<BlockType>, i: int, sprout: bool) -> Seq<BlockType> {
    if blocks[i] == BlockType::Grass && sprout {
        with_tree(blocks, cell_x(i), cell_y(i), cell_z(i))
    } else {
        blocks
    }
}

/// The blocks after the first steps of the tree pass, one step for each
/// entry of `sprouts`, which says whether the lot fell on the block visited.
pub open spec fn decorated(base: Seq<BlockType>, sprouts: Seq<bool>) -> Seq<BlockType>
    decreases sprouts.len(),
{
    if sprouts.len() == 0 {
        base
    } else {
        decorate_cell(
            decorated(base, sprouts.drop_last()),
            step_index(sprouts.len() - 1),
            sprouts.last(),
        )
    }
}

/// The step at which the tree pass visits the block at `(x, y, z)`.
pub proof fn lemma_step_index(x: int, y: int, z: int)
    requires
        in_chunk(x, y, z),
    ensures
        step_index(1024 * x + 32 * y + z) == block_index(x, y, z),
{
}

/// One more step of the tree pass visits one more block.
pub proof fn lemma_decorated_push(base: Seq<BlockType>, sprouts: Seq<bool>, sprout: bool)
    ensures
        decorated(base, sprouts.push(sprout)) == decorate_cell(
            decorated(base, sprouts),
            step_index(sprouts.len() as int),
            sprout,
        ),
{
    assert(sprouts.push(sprout).drop_last() =~= sprouts);
}

/// Grows a tree on the block at `(x, y, z)` if the lot fell on it: one lot in
/// `TREE_ODDS` does, the one numbered 0.
pub fn sprout_tree(blocks: &mut [BlockType; CHUNK_VOLUME], x: usize, y: usize, z: usize, lot: u32)
    requires
        x < CHUNK_SIZE,
        y < CHUNK_SIZE,
        z < CHUNK_SIZE,
    ensures
        final(blocks)@ == (if lot == 0 {
            with_tree(old(blocks)@, x as int, y as int, z as int)
        } else {
            old(blocks)@
        }),
{
    if lot == 0 {
        place_tree(blocks, x, y, z);
    }
}

/// Generates the chunk at `chunk_pos`. `heights` holds the ground height of
/// each of its columns, the one at `(x, z)` at `x + CHUNK_SIZE * z`; `rng`
/// draws a lot for each grass block that the tree pass comes by.
///
/// The ground is a function of the heights and of the chunk's own height.
/// Where trees stand depends on the lots: the chunk is the ground with trees
/// for some lots.
pub fn gen_chunk(chunk_pos: IVec3, heights: &[i32; CHUNK_AREA], rng: &mut StdRng) -> (response:
    ChunkGenResponse)
    ensures
        response.position == chunk_pos,
        exists|sprouts: Seq<bool>|
            sprouts.len() == CHUNK_VOLUME && response.data.spec_chunk().blocks@ == #[trigger] decorated(
                spec_shape_terrain(chunk_pos.y as int, heights@),
                sprouts,
            ),
{
    let mut blocks = shape_terrain(chunk_pos, heights);
    let ghost base = blocks@;
    let ghost mut sprouts: Seq<bool> = Seq::empty();
    let mut x: usize = 0;
    while x < CHUNK_SIZE
        invariant
            x <= CHUNK_SIZE,
            sprouts.len() == 1024 * x,
            blocks@ == decorated(base, sprouts),
        decreases CHUNK_SIZE - x,
    {
        let mut y: usize = 0;
        while y < CHUNK_SIZE
            invariant
                x < CHUNK_SIZE,
                y <= CHUNK_SIZE,
                sprouts.len() == 1024 * x + 32 * y,
                blocks@ == decorated(base, sprouts),
            decreases CHUNK_SIZE - y,
        {
            let mut z: usize = 0;
            while z < CHUNK_SIZE
                invariant
                    x < CHUNK_SIZE,
                    y < CHUNK_SIZE,
                    z <= CHUNK_SIZE,
                    sprouts.len() == 1024 * x + 32 * y + z,
                    blocks@ == decorated(base, sprouts),
                decreases CHUNK_SIZE - z,
            {
                let ghost before = blocks@;
                let ghost mut sprout = false;
                let i: usize = x + y * CHUNK_SIZE + z * CHUNK_AREA;
                if blocks[i] == BlockType::Grass {
                    let lot = random_below(rng, TREE_ODDS);
                    sprout_tree(&mut blocks, x, y, z, lot);
                    proof {
                        sprout = lot == 0;
                    }
                }
                proof {
                    lemma_index_cell(x as int, y as int, z as int);
                    lemma_step_index(x as int, y as int, z as int);
                    lemma_decorated_push(base, sprouts, sprout);
                    sprouts = sprouts.push(sprout);
                }
                z += 1;
            }
            y += 1;
        }
        x += 1;
    }
    let mut chunk = Chunk::new();
    chunk.set(blocks);
    ChunkGenResponse { position: chunk_pos, data: ChunkData::new(chunk) }
}

} // verus!
