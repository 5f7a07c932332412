use std::collections::HashSet;
use voxel_terrain::block::BlockType;
use voxel_terrain::chunk::{Chunk, ChunkData};
use voxel_terrain::coords::{IVec3, UVec3};
use voxel_terrain::generator::ChunkGenResponse;
use voxel_terrain::terrain::{
    chunk_of, local_of, Terrain, TerrainChanges, RENDER_DISTANCE, UNLOADS_PER_TICK,
};

fn air() -> ChunkData {
    ChunkData::new(Chunk::new())
}

fn with_block(block: BlockType, x: usize, y: usize, z: usize) -> ChunkData {
    let mut chunk = Chunk::new();
    chunk.set_block(block, UVec3::new(x, y, z));
    ChunkData::new(chunk)
}

fn response(p: IVec3) -> ChunkGenResponse {
    ChunkGenResponse { position: p, data: air() }
}

fn origin() -> IVec3 {
    IVec3::new(0, 0, 0)
}

fn cube(center: IVec3, r: i32) -> HashSet<IVec3> {
    let mut set = HashSet::new();
    for x in -r..=r {
        for y in -r..=r {
            for z in -r..=r {
                set.insert(IVec3::new(center.x + x, center.y + y, center.z + z));
            }
        }
    }
    set
}

fn distance(a: IVec3, b: IVec3) -> i32 {
    (a.x - b.x).abs().max((a.y - b.y).abs()).max((a.z - b.z).abs())
}

#[test]
fn new_store_is_empty() {
    let terrain = Terrain::new();
    assert_eq!(RENDER_DISTANCE, 8);
    assert_eq!(terrain.render_distance(), 8);
    assert_eq!(terrain.player_chunk(), origin());
    assert!(terrain.load_todo().is_empty());
    assert!(terrain.loading().is_empty());
    assert!(terrain.unload_todo().is_empty());
    assert!(terrain.chunk_positions().is_empty());
    assert!(terrain.get_chunk(origin()).is_none());
    assert_eq!(Terrain::with_render_distance(3).render_distance(), 3);
}

#[test]
fn add_chunk_says_whether_it_replaced_one() {
    let mut terrain = Terrain::new();
    assert!(!terrain.add_chunk(IVec3::new(1, 2, 3), air()));
    assert!(terrain.get_chunk(IVec3::new(1, 2, 3)).unwrap().is_empty());
    assert!(terrain.add_chunk(IVec3::new(1, 2, 3), with_block(BlockType::Stone, 0, 0, 0)));
    assert!(!terrain.get_chunk(IVec3::new(1, 2, 3)).unwrap().is_empty());
    assert!(!terrain.add_chunk(IVec3::new(3, 2, 1), air()));
    let mut positions = terrain.chunk_positions();
    positions.sort_by_key(|p| p.x);
    assert_eq!(positions, [IVec3::new(1, 2, 3), IVec3::new(3, 2, 1)]);
}

#[test]
fn coordinates_at_the_ends_of_the_range_are_kept_apart() {
    let mut terrain = Terrain::new();
    let corners = [
        IVec3::new(i32::MIN, i32::MIN, i32::MIN),
        IVec3::new(i32::MAX, i32::MAX, i32::MAX),
        IVec3::new(i32::MIN, 0, i32::MAX),
        IVec3::new(-1, -1, -1),
        IVec3::new(0, 0, -1),
        IVec3::new(0, -1, 0),
    ];
    for (n, p) in corners.iter().enumerate() {
        assert!(!terrain.add_chunk(*p, with_block(BlockType::Stone, n, 0, 0)));
    }
    for (n, p) in corners.iter().enumerate() {
        let chunk = terrain.get_chunk(*p).unwrap().chunk();
        assert_eq!(chunk.get_block(UVec3::new(n, 0, 0)), BlockType::Stone);
    }
    let found: HashSet<IVec3> = terrain.chunk_positions().into_iter().collect();
    assert_eq!(found, corners.iter().copied().collect());
}

#[test]
fn remove_chunk_forgets_the_chunk_and_its_place_in_the_list() {
    let mut terrain = Terrain::with_render_distance(0);
    terrain.add_chunk(origin(), air());
    terrain.load_chunks(origin());
    assert_eq!(terrain.load_todo().len(), 26);
    terrain.remove_chunk(origin());
    assert!(terrain.get_chunk(origin()).is_none());
    assert_eq!(terrain.load_todo().len(), 26);
    let first = terrain.load_todo()[0];
    let second = terrain.load_todo()[1];
    terrain.remove_chunk(first);
    assert_eq!(terrain.load_todo().len(), 25);
    assert_eq!(terrain.load_todo()[0], second);
    assert!(!terrain.load_todo().contains(&first));
}

#[test]
fn world_positions_split_into_chunk_and_block() {
    assert_eq!(chunk_of(IVec3::new(0, 31, 32)), IVec3::new(0, 0, 1));
    assert_eq!(local_of(IVec3::new(0, 31, 32)), UVec3::new(0, 31, 0));
    assert_eq!(chunk_of(IVec3::new(-1, -32, -33)), IVec3::new(-1, -1, -2));
    assert_eq!(local_of(IVec3::new(-1, -32, -33)), UVec3::new(31, 0, 31));
    assert_eq!(chunk_of(IVec3::new(i32::MIN, i32::MAX, 5)), IVec3::new(-67108864, 67108863, 0));
    assert_eq!(local_of(IVec3::new(i32::MIN, i32::MAX, 5)), UVec3::new(0, 31, 5));
}

#[test]
fn get_block_looks_into_the_right_chunk() {
    let mut terrain = Terrain::new();
    terrain.add_chunk(IVec3::new(-1, 0, 1), with_block(BlockType::Sand, 31, 5, 8));
    assert_eq!(
        terrain.get_block(IVec3::new(-1, 5, 40)),
        Some((UVec3::new(31, 5, 8), BlockType::Sand))
    );
    assert_eq!(
        terrain.get_block(IVec3::new(-2, 5, 40)),
        Some((UVec3::new(30, 5, 8), BlockType::Air))
    );
    assert_eq!(terrain.get_block(IVec3::new(0, 5, 40)), None);
}

#[test]
fn neighbors_are_complete_with_all_27_loaded() {
    let mut terrain = Terrain::new();
    let center = IVec3::new(4, -2, 9);
    let mut all: Vec<IVec3> = cube(center, 1).into_iter().collect();
    all.sort_by_key(|p| (p.x, p.y, p.z));
    assert_eq!(all.len(), 27);
    for p in &all[..26] {
        terrain.add_chunk(*p, air());
        assert!(!terrain.check_neighbors(center));
    }
    terrain.add_chunk(all[26], air());
    assert!(terrain.check_neighbors(center));
    terrain.remove_chunk(center);
    assert!(!terrain.check_neighbors(center));
    terrain.add_chunk(center, air());
    terrain.remove_chunk(IVec3::new(5, -1, 10));
    assert!(!terrain.check_neighbors(center));
}

#[test]
fn a_chunk_at_the_end_of_the_range_has_no_complete_neighborhood() {
    let mut terrain = Terrain::new();
    let center = IVec3::new(i32::MAX, 0, 0);
    for n in 0..27 {
        if let Some(p) = center.neighbor(n) {
            terrain.add_chunk(p, air());
        }
    }
    assert_eq!(terrain.chunk_positions().len(), 18);
    assert!(!terrain.check_neighbors(center));
    assert!(terrain.check_neighbors(IVec3::new(i32::MAX - 1, 0, 0)) == false);
}

#[test]
fn load_scan_lists_the_cube_nearest_first() {
    let mut terrain = Terrain::new();
    let center = IVec3::new(10, -20, 30);
    terrain.load_chunks(center);
    let list = terrain.load_todo();
    assert_eq!(list.len(), 19 * 19 * 19);
    assert_eq!(list[0], center);
    let set: HashSet<IVec3> = list.iter().copied().collect();
    assert_eq!(set.len(), list.len());
    assert_eq!(set, cube(center, 9));
    for pair in list.windows(2) {
        assert!(distance(pair[0], center) <= distance(pair[1], center));
    }
    assert!(terrain.loading().is_empty());
    assert!(terrain.unload_todo().is_empty());
    assert_eq!(terrain.player_chunk(), origin());
}

#[test]
fn load_scan_walks_each_shell_face_by_face() {
    let mut terrain = Terrain::with_render_distance(1);
    terrain.load_chunks(origin());
    let list = terrain.load_todo();
    assert_eq!(list.len(), 125);
    let expect = [
        (0, (0, 0, 0)),
        (1, (-1, -1, -1)),
        (2, (-1, -1, 0)),
        (3, (-1, -1, 1)),
        (4, (0, -1, -1)),
        (9, (1, -1, 1)),
        (10, (-1, 0, -1)),
        (12, (-1, 0, 1)),
        (13, (0, 0, -1)),
        (14, (-1, 1, -1)),
        (22, (1, 1, 1)),
        (23, (1, 0, -1)),
        (26, (0, 0, 1)),
        (27, (-2, -2, -2)),
    ];
    for (i, (x, y, z)) in expect {
        assert_eq!(list[i], IVec3::new(x, y, z), "entry {}", i);
    }
}

#[test]
fn load_scan_leaves_out_what_is_known() {
    let mut terrain = Terrain::with_render_distance(0);
    terrain.add_chunk(IVec3::new(1, 1, 1), air());
    terrain.add_chunk(IVec3::new(7, 7, 7), air());
    terrain.load_chunks(origin());
    assert_eq!(terrain.load_todo().len(), 26);
    assert!(!terrain.load_todo().contains(&IVec3::new(1, 1, 1)));
    terrain.load_chunks(origin());
    assert_eq!(terrain.load_todo().len(), 26);
    // What is being loaded is known too.
    let tick = terrain.update(origin(), TerrainChanges::new(), Vec::new());
    assert_eq!(tick.dispatched.len(), 26);
    assert_eq!(terrain.loading().len(), 26);
    terrain.load_chunks(origin());
    assert!(terrain.load_todo().is_empty());
    terrain.load_chunks(IVec3::new(2, 0, 0));
    let added: HashSet<IVec3> = terrain.load_todo().iter().copied().collect();
    assert_eq!(added.len(), 18);
    assert!(added.iter().all(|p| p.x >= 2));
}

#[test]
fn load_scan_stops_at_the_end_of_the_range() {
    let mut terrain = Terrain::with_render_distance(0);
    terrain.load_chunks(IVec3::new(i32::MAX, i32::MIN, 0));
    assert_eq!(terrain.load_todo().len(), 12);
}

#[test]
fn unload_scan_lists_the_chunks_that_are_too_far() {
    let mut terrain = Terrain::with_render_distance(2);
    let near = [IVec3::new(0, 0, 0), IVec3::new(3, -3, 3), IVec3::new(-3, 0, 1)];
    let far = [IVec3::new(4, 0, 0), IVec3::new(0, -4, 0), IVec3::new(3, 3, 9), IVec3::new(-50, 0, 0)];
    for p in near.iter().chain(far.iter()) {
        terrain.add_chunk(*p, air());
    }
    terrain.unload_chunks(origin());
    let listed: HashSet<IVec3> = terrain.unload_todo().iter().copied().collect();
    assert_eq!(terrain.unload_todo().len(), 4);
    assert_eq!(listed, far.iter().copied().collect());
    assert_eq!(terrain.chunk_positions().len(), 7);
    // A second scan lists them again: nothing was unloaded in between.
    terrain.unload_chunks(origin());
    assert_eq!(terrain.unload_todo().len(), 8);
}

#[test]
fn the_first_tick_scans_and_hands_out() {
    let mut terrain = Terrain::with_render_distance(0);
    let tick = terrain.update(origin(), TerrainChanges::new(), Vec::new());
    assert_eq!(tick.dispatched.len(), 27);
    assert_eq!(tick.dispatched[0], origin());
    assert_eq!(terrain.loading(), &tick.dispatched);
    assert!(terrain.load_todo().is_empty());
    assert!(tick.changes.loaded_chunks.is_empty());
    assert!(tick.changes.unloaded_chunks.is_empty());
    assert!(tick.changes.modified_chunks.is_empty());
    assert!(tick.overwritten.is_empty());
    // Nothing moves: no scan, nothing to hand out.
    let tick = terrain.update(origin(), TerrainChanges::new(), Vec::new());
    assert!(tick.dispatched.is_empty());
    assert_eq!(terrain.loading().len(), 27);
}

#[test]
fn a_tick_scans_when_the_observer_changes_chunk() {
    let mut terrain = Terrain::with_render_distance(0);
    terrain.update(origin(), TerrainChanges::new(), Vec::new());
    let tick = terrain.update(IVec3::new(1, 0, 0), TerrainChanges::new(), Vec::new());
    assert_eq!(terrain.player_chunk(), IVec3::new(1, 0, 0));
    assert_eq!(tick.dispatched.len(), 9);
    assert!(tick.dispatched.iter().all(|p| p.x == 2));
    assert_eq!(terrain.loading().len(), 36);
}

#[test]
fn generated_chunks_come_in_in_order() {
    let mut terrain = Terrain::with_render_distance(0);
    terrain.update(origin(), TerrainChanges::new(), Vec::new());
    let a = IVec3::new(1, 0, 0);
    let b = IVec3::new(0, 0, 0);
    let c = IVec3::new(-1, 1, 0);
    let tick = terrain.update(
        origin(),
        TerrainChanges::new(),
        vec![
            response(a),
            ChunkGenResponse { position: b, data: with_block(BlockType::Dirt, 1, 1, 1) },
            response(c),
        ],
    );
    assert_eq!(tick.changes.loaded_chunks, [a, b, c]);
    assert!(tick.overwritten.is_empty());
    assert!(tick.dispatched.is_empty());
    assert_eq!(terrain.loading().len(), 24);
    for p in [a, b, c] {
        assert!(!terrain.loading().contains(&p));
        assert!(terrain.get_chunk(p).is_some());
    }
    assert!(terrain.get_chunk(a).unwrap().is_empty());
    assert!(!terrain.get_chunk(b).unwrap().is_empty());
}

#[test]
fn a_chunk_that_comes_twice_is_reported_and_the_last_one_stays() {
    let mut terrain = Terrain::with_render_distance(0);
    terrain.update(origin(), TerrainChanges::new(), Vec::new());
    let p = IVec3::new(1, 1, 1);
    let tick = terrain.update(
        origin(),
        TerrainChanges::new(),
        vec![
            ChunkGenResponse { position: p, data: with_block(BlockType::Dirt, 1, 1, 1) },
            ChunkGenResponse { position: p, data: with_block(BlockType::Sand, 2, 2, 2) },
        ],
    );
    assert_eq!(tick.changes.loaded_chunks, [p, p]);
    assert_eq!(tick.overwritten, [p]);
    let chunk = terrain.get_chunk(p).unwrap().chunk();
    assert_eq!(chunk.get_block(UVec3::new(2, 2, 2)), BlockType::Sand);
    assert_eq!(chunk.get_block(UVec3::new(1, 1, 1)), BlockType::Air);
    let tick = terrain.update(origin(), TerrainChanges::new(), vec![response(p)]);
    assert_eq!(tick.overwritten, [p]);
    assert!(terrain.get_chunk(p).unwrap().is_empty());
}

#[test]
fn edits_change_loaded_chunks_and_their_emptiness() {
    let mut terrain = Terrain::with_render_distance(0);
    terrain.update(origin(), TerrainChanges::new(), Vec::new());
    terrain.update(origin(), TerrainChanges::new(), vec![response(origin())]);
    assert!(terrain.get_chunk(origin()).unwrap().is_empty());

    let mut edits = TerrainChanges::new();
    edits.add_edit(origin(), UVec3::new(3, 4, 5), BlockType::Stone);
    let tick = terrain.update(origin(), edits, Vec::new());
    assert_eq!(tick.changes.modified_chunks.len(), 1);
    assert_eq!(tick.changes.modified_chunks[0].0, origin());
    assert_eq!(tick.changes.modified_chunks[0].1, [(UVec3::new(3, 4, 5), BlockType::Stone)]);
    let data = terrain.get_chunk(origin()).unwrap();
    assert!(!data.is_empty());
    assert_eq!(data.chunk().get_block(UVec3::new(3, 4, 5)), BlockType::Stone);

    let mut edits = TerrainChanges::new();
    edits.add_edit(origin(), UVec3::new(3, 4, 5), BlockType::Air);
    terrain.update(origin(), edits, Vec::new());
    assert!(terrain.get_chunk(origin()).unwrap().is_empty());
}

#[test]
fn edits_of_chunks_that_are_not_loaded_are_dropped() {
    let mut terrain = Terrain::with_render_distance(0);
    terrain.update(origin(), TerrainChanges::new(), Vec::new());
    terrain.update(origin(), TerrainChanges::new(), vec![response(origin())]);
    let mut edits = TerrainChanges::new();
    edits.add_edit(IVec3::new(1, 0, 0), UVec3::new(0, 0, 0), BlockType::Stone);
    edits.add_edit(origin(), UVec3::new(0, 0, 0), BlockType::Dirt);
    edits.add_edit(IVec3::new(9, 9, 9), UVec3::new(0, 0, 0), BlockType::Stone);
    let tick = terrain.update(origin(), edits, Vec::new());
    assert_eq!(tick.changes.modified_chunks.len(), 1);
    assert_eq!(tick.changes.modified_chunks[0].0, origin());
    assert!(terrain.get_chunk(IVec3::new(1, 0, 0)).is_none());
    assert!(terrain.get_chunk(IVec3::new(9, 9, 9)).is_none());
    assert_eq!(terrain.chunk_positions().len(), 1);
}

#[test]
fn batches_for_one_chunk_are_applied_in_order() {
    let mut terrain = Terrain::with_render_distance(0);
    terrain.add_chunk(origin(), air());
    let edits = TerrainChanges {
        loaded_chunks: Vec::new(),
        unloaded_chunks: Vec::new(),
        modified_chunks: vec![
            (origin(), vec![(UVec3::new(1, 1, 1), BlockType::Stone)]),
            (origin(), vec![(UVec3::new(1, 1, 1), BlockType::Wood)]),
        ],
    };
    let tick = terrain.update(origin(), edits, Vec::new());
    assert_eq!(tick.changes.modified_chunks.len(), 2);
    let chunk = terrain.get_chunk(origin()).unwrap().chunk();
    assert_eq!(chunk.get_block(UVec3::new(1, 1, 1)), BlockType::Wood);
}

#[test]
fn a_tick_unloads_ten_chunks_at_most() {
    assert_eq!(UNLOADS_PER_TICK, 10);
    let mut terrain = Terrain::with_render_distance(0);
    for x in 0..25 {
        terrain.add_chunk(IVec3::new(100 + x, 0, 0), air());
    }
    let tick = terrain.update(IVec3::new(0, 1, 0), TerrainChanges::new(), Vec::new());
    assert_eq!(tick.changes.unloaded_chunks.len(), 10);
    assert_eq!(terrain.unload_todo().len(), 15);
    assert_eq!(terrain.chunk_positions().len(), 15);
    for p in &tick.changes.unloaded_chunks {
        assert!(terrain.get_chunk(*p).is_none());
        assert!(!terrain.unload_todo().contains(p));
    }
    let left = terrain.unload_todo().clone();
    let tick = terrain.update(IVec3::new(0, 1, 0), TerrainChanges::new(), Vec::new());
    // The last of the list goes first.
    let expected: Vec<IVec3> = left.iter().rev().take(10).copied().collect();
    assert_eq!(tick.changes.unloaded_chunks, expected);
    let tick = terrain.update(IVec3::new(0, 1, 0), TerrainChanges::new(), Vec::new());
    assert_eq!(tick.changes.unloaded_chunks.len(), 5);
    assert!(terrain.chunk_positions().is_empty());
    let tick = terrain.update(IVec3::new(0, 1, 0), TerrainChanges::new(), Vec::new());
    assert!(tick.changes.unloaded_chunks.is_empty());
}

#[test]
fn pick_block_stops_at_the_first_solid_block() {
    let mut terrain = Terrain::new();
    terrain.add_chunk(origin(), with_block(BlockType::Stone, 5, 5, 5));
    terrain.add_chunk(IVec3::new(0, 0, 1), with_block(BlockType::Dirt, 5, 5, 0));
    let ray: Vec<IVec3> = (0..50).map(|t| IVec3::new(5, 5, t)).collect();
    assert_eq!(terrain.pick_block(&ray), Some((origin(), UVec3::new(5, 5, 5))));
    let back: Vec<IVec3> = (0..50).rev().map(|t| IVec3::new(5, 5, t)).collect();
    assert_eq!(terrain.pick_block(&back), Some((IVec3::new(0, 0, 1), UVec3::new(5, 5, 0))));
    let beside: Vec<IVec3> = (0..50).map(|t| IVec3::new(6, 5, t)).collect();
    assert_eq!(terrain.pick_block(&beside), None);
    let outside: Vec<IVec3> = (0..50).map(|t| IVec3::new(5, 5, -1 - t)).collect();
    assert_eq!(terrain.pick_block(&outside), None);
    assert_eq!(terrain.pick_block(&Vec::new()), None);
}

#[test]
fn add_edit_keeps_one_batch_for_each_chunk() {
    let mut changes = TerrainChanges::new();
    let a = IVec3::new(1, 0, 0);
    let b = IVec3::new(2, 0, 0);
    changes.add_edit(a, UVec3::new(1, 1, 1), BlockType::Air);
    changes.add_edit(b, UVec3::new(2, 2, 2), BlockType::Stone);
    changes.add_edit(a, UVec3::new(3, 3, 3), BlockType::Dirt);
    assert_eq!(changes.modified_chunks.len(), 2);
    assert_eq!(changes.modified_chunks[0].0, a);
    assert_eq!(
        changes.modified_chunks[0].1,
        [(UVec3::new(1, 1, 1), BlockType::Air), (UVec3::new(3, 3, 3), BlockType::Dirt)]
    );
    assert_eq!(changes.modified_chunks[1].0, b);
    assert_eq!(changes.modified_chunks[1].1, [(UVec3::new(2, 2, 2), BlockType::Stone)]);
    assert!(changes.loaded_chunks.is_empty());
    assert!(changes.unloaded_chunks.is_empty());
}

#[test]
fn carve_clears_a_chunk_that_is_not_empty() {
    let mut terrain = Terrain::new();
    terrain.add_chunk(origin(), with_block(BlockType::Stone, 3, 4, 5));
    terrain.add_chunk(IVec3::new(1, 0, 0), air());
    assert!(terrain.carve(IVec3::new(1, 0, 0)).modified_chunks.is_empty());
    assert!(terrain.carve(IVec3::new(2, 0, 0)).modified_chunks.is_empty());
    let changes = terrain.carve(origin());
    assert!(changes.loaded_chunks.is_empty());
    assert!(changes.unloaded_chunks.is_empty());
    assert_eq!(changes.modified_chunks.len(), 1);
    let (at, batch) = &changes.modified_chunks[0];
    assert_eq!(*at, origin());
    assert_eq!(batch.len(), 32 * 32 * 32);
    assert_eq!(batch[0], (UVec3::new(0, 0, 0), BlockType::Air));
    assert_eq!(batch[1], (UVec3::new(0, 0, 1), BlockType::Air));
    assert_eq!(batch[32], (UVec3::new(0, 1, 0), BlockType::Air));
    assert_eq!(batch[1024 * 3 + 32 * 4 + 5], (UVec3::new(3, 4, 5), BlockType::Air));
    assert_eq!(batch[32767], (UVec3::new(31, 31, 31), BlockType::Air));
    let tick = terrain.update(origin(), changes, Vec::new());
    assert_eq!(tick.changes.modified_chunks.len(), 1);
    assert!(terrain.get_chunk(origin()).unwrap().is_empty());
}
