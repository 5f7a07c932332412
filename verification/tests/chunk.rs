use voxel_terrain::block::BlockType;
use voxel_terrain::chunk::{Chunk, ChunkData, CHUNK_AREA, CHUNK_SIZE, CHUNK_VOLUME, NEIGHBORHOOD};
use voxel_terrain::coords::{IVec3, UVec3};

fn neighborhood() -> Vec<Chunk> {
    let mut chunks = Vec::new();
    for _ in 0..NEIGHBORHOOD {
        chunks.push(Chunk::new());
    }
    chunks
}

#[test]
fn sizes_agree() {
    assert_eq!(CHUNK_SIZE, 32);
    assert_eq!(CHUNK_AREA, CHUNK_SIZE * CHUNK_SIZE);
    assert_eq!(CHUNK_VOLUME, CHUNK_SIZE * CHUNK_SIZE * CHUNK_SIZE);
    assert_eq!(NEIGHBORHOOD, 27);
}

#[test]
fn new_chunk_is_air() {
    let chunk = Chunk::new();
    assert_eq!(chunk.blocks.len(), CHUNK_VOLUME);
    assert!(chunk.blocks.iter().all(|b| *b == BlockType::Air));
    assert!(chunk.is_empty());
}

#[test]
fn blocks_are_stored_x_first() {
    let mut chunk = Chunk::new();
    chunk.set_block(BlockType::Stone, UVec3::new(3, 5, 7));
    assert_eq!(chunk.blocks[3 + 32 * 5 + 1024 * 7], BlockType::Stone);
    assert_eq!(chunk.get_block(UVec3::new(3, 5, 7)), BlockType::Stone);
    assert_eq!(chunk.get_block(UVec3::new(5, 3, 7)), BlockType::Air);
    assert_eq!(UVec3::new(3, 5, 7).to_index(), 7331);
    assert_eq!(UVec3::new(31, 31, 31).to_index(), CHUNK_VOLUME - 1);
}

#[test]
fn set_replaces_every_block() {
    let mut chunk = Chunk::new();
    chunk.set([BlockType::Dirt; CHUNK_VOLUME]);
    assert_eq!(chunk.get_block(UVec3::new(0, 0, 0)), BlockType::Dirt);
    assert_eq!(chunk.get_block(UVec3::new(31, 31, 31)), BlockType::Dirt);
    assert!(!chunk.is_empty());
}

#[test]
fn clone_keeps_the_blocks() {
    let mut chunk = Chunk::new();
    chunk.set_block(BlockType::Wood, UVec3::new(1, 2, 3));
    let copy = chunk.clone();
    assert_eq!(copy.blocks, chunk.blocks);
}

#[test]
fn border_inside_is_the_chunk_itself() {
    let mut chunk = Chunk::new();
    chunk.set_block(BlockType::Sand, UVec3::new(0, 31, 16));
    let mut around = neighborhood();
    around[13].set([BlockType::Stone; CHUNK_VOLUME]);
    for (x, y, z) in [(0, 31, 16), (0, 0, 0), (31, 31, 31), (15, 16, 17)] {
        let inside = chunk.get_block(UVec3::new(x, y, z));
        let probe = IVec3::new(x as i32, y as i32, z as i32);
        assert_eq!(chunk.get_block_border(&around, probe), inside);
        assert_eq!(chunk.get_block_border(&[], probe), inside);
    }
}

#[test]
fn border_outside_reads_the_facing_neighbor() {
    let chunk = Chunk::new();
    let mut around = neighborhood();
    // The neighbour at (dx, dy, dz) stands at (dx + 1) + 3 (dy + 1) + 9 (dz + 1).
    around[14].set_block(BlockType::Stone, UVec3::new(0, 4, 5));
    around[12].set_block(BlockType::Dirt, UVec3::new(31, 4, 5));
    around[16].set_block(BlockType::Sand, UVec3::new(4, 0, 5));
    around[10].set_block(BlockType::Wood, UVec3::new(4, 31, 5));
    around[22].set_block(BlockType::Leaves, UVec3::new(4, 5, 0));
    around[4].set_block(BlockType::Grass, UVec3::new(4, 5, 31));
    assert_eq!(chunk.get_block_border(&around, IVec3::new(32, 4, 5)), BlockType::Stone);
    assert_eq!(chunk.get_block_border(&around, IVec3::new(-1, 4, 5)), BlockType::Dirt);
    assert_eq!(chunk.get_block_border(&around, IVec3::new(4, 32, 5)), BlockType::Sand);
    assert_eq!(chunk.get_block_border(&around, IVec3::new(4, -1, 5)), BlockType::Wood);
    assert_eq!(chunk.get_block_border(&around, IVec3::new(4, 5, 32)), BlockType::Leaves);
    assert_eq!(chunk.get_block_border(&around, IVec3::new(4, 5, -1)), BlockType::Grass);
    assert_eq!(chunk.get_block_border(&around, IVec3::new(32, 5, 5)), BlockType::Air);
}

#[test]
fn border_corner_reads_the_diagonal_neighbor() {
    let chunk = Chunk::new();
    let mut around = neighborhood();
    around[26].set_block(BlockType::Stone, UVec3::new(0, 0, 0));
    around[0].set_block(BlockType::Dirt, UVec3::new(31, 31, 31));
    around[17].set_block(BlockType::Sand, UVec3::new(0, 0, 9));
    assert_eq!(chunk.get_block_border(&around, IVec3::new(32, 32, 32)), BlockType::Stone);
    assert_eq!(chunk.get_block_border(&around, IVec3::new(-1, -1, -1)), BlockType::Dirt);
    assert_eq!(chunk.get_block_border(&around, IVec3::new(32, 32, 9)), BlockType::Sand);
}

#[test]
fn apply_changes_puts_blocks_in_order() {
    let mut chunk = Chunk::new();
    chunk.apply_changes(&vec![
        (UVec3::new(1, 1, 1), BlockType::Stone),
        (UVec3::new(2, 1, 1), BlockType::Dirt),
        (UVec3::new(1, 1, 1), BlockType::Sand),
    ]);
    assert_eq!(chunk.get_block(UVec3::new(1, 1, 1)), BlockType::Sand);
    assert_eq!(chunk.get_block(UVec3::new(2, 1, 1)), BlockType::Dirt);
    assert_eq!(chunk.blocks.iter().filter(|b| **b != BlockType::Air).count(), 2);
}

#[test]
fn chunk_data_notes_emptiness() {
    let empty = ChunkData::new(Chunk::new());
    assert!(empty.is_empty());
    let mut chunk = Chunk::new();
    chunk.set_block(BlockType::Leaves, UVec3::new(31, 0, 31));
    let full = ChunkData::new(chunk);
    assert!(!full.is_empty());
    assert_eq!(full.chunk().get_block(UVec3::new(31, 0, 31)), BlockType::Leaves);
    let copy = full.clone();
    assert!(!copy.is_empty());
    let mut back = copy.into_chunk();
    back.set_block(BlockType::Air, UVec3::new(31, 0, 31));
    assert!(ChunkData::new(back).is_empty());
}

#[test]
fn offsets_stop_at_the_coordinate_range() {
    let p = IVec3::new(i32::MAX, 0, i32::MIN);
    assert_eq!(p.offset(-1, 1, 1), Some(IVec3::new(i32::MAX - 1, 1, i32::MIN + 1)));
    assert_eq!(p.offset(1, 0, 0), None);
    assert_eq!(p.offset(0, 0, -1), None);
    assert_eq!(p.neighbor(13), Some(p));
    assert_eq!(p.neighbor(14), None);
    assert_eq!(IVec3::new(0, 0, 0).neighbor(0), Some(IVec3::new(-1, -1, -1)));
    assert_eq!(IVec3::new(0, 0, 0).neighbor(14), Some(IVec3::new(1, 0, 0)));
    assert_eq!(IVec3::new(0, 0, 0).neighbor(26), Some(IVec3::new(1, 1, 1)));
    assert_eq!(IVec3::new(0, 0, 0).scan_neighbor(0), Some(IVec3::new(-1, -1, -1)));
    assert_eq!(IVec3::new(0, 0, 0).scan_neighbor(1), Some(IVec3::new(-1, -1, 0)));
    assert_eq!(IVec3::new(0, 0, 0).scan_neighbor(9), Some(IVec3::new(0, -1, -1)));
}

#[test]
fn distance_is_the_largest_along_an_axis() {
    let p = IVec3::new(0, 0, 0);
    assert!(p.within(IVec3::new(3, -2, 1), 3));
    assert!(!p.within(IVec3::new(3, -4, 1), 3));
    assert!(p.within(p, 0));
    assert!(!IVec3::new(i32::MIN, 0, 0).within(IVec3::new(i32::MAX, 0, 0), i32::MAX));
}
