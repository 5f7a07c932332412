use voxel_terrain::block::BlockType;
use voxel_terrain::chunk::{Chunk, ChunkData};
use voxel_terrain::coords::{IVec3, UVec3};
use voxel_terrain::mesh::CMesh;
use voxel_terrain::mesh_store::{MeshJob, TerrainMesh, MESHES_PER_TICK};
use voxel_terrain::terrain::{Terrain, TerrainChanges};

fn air() -> ChunkData {
    ChunkData::new(Chunk::new())
}

fn ground() -> ChunkData {
    let mut chunk = Chunk::new();
    chunk.set_block(BlockType::Stone, UVec3::new(0, 0, 0));
    ChunkData::new(chunk)
}

fn origin() -> IVec3 {
    IVec3::new(0, 0, 0)
}

fn no_mesh() -> CMesh {
    CMesh::new(Vec::new(), Vec::new())
}

/// A terrain with the chunks from `lo` to `hi` loaded: ground where `y` is 0,
/// air elsewhere.
fn terrain_with(lo: (i32, i32, i32), hi: (i32, i32, i32)) -> Terrain {
    let mut terrain = Terrain::new();
    for x in lo.0..=hi.0 {
        for y in lo.1..=hi.1 {
            for z in lo.2..=hi.2 {
                terrain.add_chunk(IVec3::new(x, y, z), if y == 0 { ground() } else { air() });
            }
        }
    }
    terrain
}

fn loaded(list: &[IVec3]) -> TerrainChanges {
    TerrainChanges {
        loaded_chunks: list.to_vec(),
        unloaded_chunks: Vec::new(),
        modified_chunks: Vec::new(),
    }
}

fn unloaded(list: &[IVec3]) -> TerrainChanges {
    TerrainChanges {
        loaded_chunks: Vec::new(),
        unloaded_chunks: list.to_vec(),
        modified_chunks: Vec::new(),
    }
}

fn modified(list: &[IVec3]) -> TerrainChanges {
    TerrainChanges {
        loaded_chunks: Vec::new(),
        unloaded_chunks: Vec::new(),
        modified_chunks: list.iter().map(|p| (*p, Vec::new())).collect(),
    }
}

fn positions(jobs: &[MeshJob]) -> Vec<IVec3> {
    jobs.iter().map(|job| job.position).collect()
}

#[test]
fn meshes_are_kept_by_coordinate() {
    let mut store: TerrainMesh<u32> = TerrainMesh::new();
    assert_eq!(store.player_chunk(), origin());
    assert!(store.get_meshes().is_empty());
    assert!(store.meshes_todo().is_empty());
    store.insert_chunk(IVec3::new(1, 2, 3), 10);
    store.insert_chunk(IVec3::new(-1, -2, -3), 20);
    store.insert_chunk(IVec3::new(1, 2, 3), 30);
    assert_eq!(store.get_mesh(IVec3::new(1, 2, 3)), Some(&30));
    assert_eq!(store.get_mesh(IVec3::new(-1, -2, -3)), Some(&20));
    assert_eq!(store.get_mesh(IVec3::new(3, 2, 1)), None);
    let mut meshes: Vec<u32> = store.get_meshes().into_iter().copied().collect();
    meshes.sort();
    assert_eq!(meshes, [20, 30]);
    let mut at = store.mesh_positions();
    at.sort_by_key(|p| p.x);
    assert_eq!(at, [IVec3::new(-1, -2, -3), IVec3::new(1, 2, 3)]);
    store.remove_chunk(IVec3::new(1, 2, 3));
    assert_eq!(store.get_mesh(IVec3::new(1, 2, 3)), None);
    assert_eq!(store.get_meshes(), [&20]);
}

#[test]
fn a_job_holds_the_chunk_and_its_neighborhood() {
    let mut terrain = terrain_with((-1, -1, -1), (1, 1, 1));
    let mut marked = Chunk::new();
    marked.set_block(BlockType::Wood, UVec3::new(9, 9, 9));
    terrain.add_chunk(IVec3::new(1, 0, 0), ChunkData::new(marked));
    let job = MeshJob::new(&terrain, origin()).unwrap();
    assert_eq!(job.position, origin());
    assert_eq!(job.neighbors.len(), 27);
    assert_eq!(job.chunk.get_block(UVec3::new(0, 0, 0)), BlockType::Stone);
    assert_eq!(job.neighbors[13].blocks, job.chunk.blocks);
    assert_eq!(job.neighbors[14].get_block(UVec3::new(9, 9, 9)), BlockType::Wood);
    assert_eq!(job.neighbors[12].get_block(UVec3::new(0, 0, 0)), BlockType::Stone);
    assert!(job.neighbors[16].is_empty());
    assert!(MeshJob::new(&terrain, IVec3::new(1, 0, 0)).is_none());
    let (position, mesh) = job.build();
    assert_eq!(position, origin());
    // The one block of the chunk touches no other block.
    assert_eq!(mesh.vertices.len(), 4 * 6);
}

#[test]
fn a_loaded_chunk_is_meshed_when_its_neighborhood_is_complete() {
    let terrain = terrain_with((-1, -1, -1), (1, 1, 1));
    let mut store: TerrainMesh<u32> = TerrainMesh::new();
    let tick = store.update(&loaded(&[origin()]), &terrain, origin(), Vec::new());
    assert_eq!(positions(&tick.jobs), [origin()]);
    assert!(store.meshes_todo().is_empty());
    assert!(tick.uploads.is_empty());
}

#[test]
fn a_chunk_without_all_its_neighbors_is_never_meshed() {
    let mut terrain = terrain_with((-1, -1, -1), (1, 1, 1));
    terrain.remove_chunk(IVec3::new(1, 1, -1));
    let mut store: TerrainMesh<u32> = TerrainMesh::new();
    let all: Vec<IVec3> = terrain.chunk_positions();
    let tick = store.update(&loaded(&all), &terrain, origin(), Vec::new());
    assert!(tick.jobs.is_empty());
    assert!(store.meshes_todo().is_empty());
    let tick = store.update(&modified(&[origin()]), &terrain, origin(), Vec::new());
    assert!(tick.jobs.is_empty());
    assert!(store.meshes_todo().is_empty());
}

#[test]
fn the_last_neighbor_to_come_queues_the_chunk() {
    let terrain = terrain_with((-1, -1, -1), (1, 1, 1));
    let mut store: TerrainMesh<u32> = TerrainMesh::new();
    let tick = store.update(&loaded(&[IVec3::new(1, 1, 1)]), &terrain, origin(), Vec::new());
    assert_eq!(positions(&tick.jobs), [origin()]);
}

#[test]
fn an_empty_chunk_is_not_queued_when_it_is_loaded() {
    let mut terrain = terrain_with((-1, -1, -1), (1, 1, 1));
    terrain.add_chunk(origin(), air());
    let mut store: TerrainMesh<u32> = TerrainMesh::new();
    let tick = store.update(&loaded(&[origin()]), &terrain, origin(), Vec::new());
    assert!(tick.jobs.is_empty());
    // A chunk in which blocks were replaced is meshed anew, empty or not.
    let tick = store.update(&modified(&[origin()]), &terrain, origin(), Vec::new());
    assert_eq!(positions(&tick.jobs), [origin()]);
}

#[test]
fn a_loaded_chunk_is_queued_however_far_from_the_observer_it_is() {
    let terrain = terrain_with((8, -1, -1), (10, 1, 1));
    let far = IVec3::new(9, 0, 0);
    let mut store: TerrainMesh<u32> = TerrainMesh::new();
    let tick = store.update(&loaded(&[far]), &terrain, origin(), Vec::new());
    assert_eq!(positions(&tick.jobs), [far]);
    assert!(store.meshes_todo().is_empty());
    assert_eq!(store.player_chunk(), origin());
    // So is a neighbour of a loaded chunk, and of a modified one.
    let tick = store.update(&loaded(&[IVec3::new(10, 1, 1)]), &terrain, origin(), Vec::new());
    assert_eq!(positions(&tick.jobs), [far]);
    let tick = store.update(&modified(&[IVec3::new(8, -1, 0)]), &terrain, IVec3::new(-40, 0, 0), Vec::new());
    assert_eq!(positions(&tick.jobs), [far]);
    assert_eq!(store.player_chunk(), IVec3::new(-40, 0, 0));
}

fn row(xs: &[i32]) -> Vec<IVec3> {
    xs.iter().map(|x| IVec3::new(*x, 0, 0)).collect()
}

/// A terrain in which the chunks from (-6, 0, 0) to (5, 0, 0) can be shown,
/// and a store that was told that they were loaded, one after the other. A
/// chunk that is loaded goes to the back of the list, and so does its
/// neighbour to the right, which is not in the list yet; so every chunk but
/// the first is listed twice. The first tick hands out ten of the list.
fn busy_store() -> (Terrain, TerrainMesh<u32>, Vec<IVec3>) {
    let terrain = terrain_with((-7, -1, -1), (6, 1, 1));
    let came = row(&[-6, -5, -4, -3, -2, -1, 0, 1, 2, 3, 4, 5]);
    let mut store: TerrainMesh<u32> = TerrainMesh::new();
    let tick = store.update(&loaded(&came), &terrain, origin(), Vec::new());
    (terrain, store, positions(&tick.jobs))
}

fn waiting(store: &TerrainMesh<u32>) -> Vec<IVec3> {
    store.meshes_todo().iter().copied().collect()
}

#[test]
fn a_tick_hands_out_ten_jobs_at_most() {
    assert_eq!(MESHES_PER_TICK, 10);
    let (terrain, mut store, first) = busy_store();
    assert_eq!(first, row(&[-6, -5, -5, -4, -4, -3, -3, -2, -2, -1]));
    assert_eq!(waiting(&store), row(&[-1, 0, 0, 1, 1, 2, 2, 3, 3, 4, 4, 5, 5]));
    let tick = store.update(&TerrainChanges::new(), &terrain, origin(), Vec::new());
    assert_eq!(positions(&tick.jobs), row(&[-1, 0, 0, 1, 1, 2, 2, 3, 3, 4]));
    assert_eq!(waiting(&store), row(&[4, 5, 5]));
    let tick = store.update(&TerrainChanges::new(), &terrain, origin(), Vec::new());
    assert_eq!(positions(&tick.jobs), row(&[4, 5, 5]));
    assert!(store.meshes_todo().is_empty());
}

#[test]
fn modified_chunks_queue_in_front() {
    let (terrain, mut store, _) = busy_store();
    let tick = store.update(&modified(&row(&[-6])), &terrain, origin(), Vec::new());
    // The chunk goes to the front, and then its neighbour to the right in
    // front of it; the one to the left cannot be shown.
    assert_eq!(positions(&tick.jobs), row(&[-5, -6, -1, 0, 0, 1, 1, 2, 2, 3]));
    assert_eq!(waiting(&store), row(&[3, 4, 4, 5, 5]));
}

#[test]
fn a_modified_chunk_brings_its_neighbors_along() {
    let terrain = terrain_with((-3, -1, -1), (3, 1, 1));
    let mut store: TerrainMesh<u32> = TerrainMesh::new();
    let tick = store.update(&modified(&row(&[0])), &terrain, origin(), Vec::new());
    assert_eq!(positions(&tick.jobs), row(&[1, -1, 0]));
}

#[test]
fn a_loaded_chunk_brings_its_neighbors_along() {
    let terrain = terrain_with((-3, -1, -1), (3, 1, 1));
    let mut store: TerrainMesh<u32> = TerrainMesh::new();
    let tick = store.update(&loaded(&[IVec3::new(0, 0, 0)]), &terrain, origin(), Vec::new());
    assert_eq!(
        positions(&tick.jobs),
        [IVec3::new(0, 0, 0), IVec3::new(-1, 0, 0), IVec3::new(1, 0, 0)]
    );
}

#[test]
fn a_job_that_cannot_be_made_goes_back_into_the_list() {
    let (mut terrain, mut store, _) = busy_store();
    store.update(&TerrainChanges::new(), &terrain, origin(), Vec::new());
    assert_eq!(waiting(&store), row(&[4, 5, 5]));
    // A neighbour of (5, 0, 0) goes, and the store is not told.
    terrain.remove_chunk(IVec3::new(6, 1, 1));
    let tick = store.update(&TerrainChanges::new(), &terrain, origin(), Vec::new());
    assert_eq!(positions(&tick.jobs), row(&[4]));
    assert_eq!(waiting(&store), row(&[5, 5]));
    let tick = store.update(&TerrainChanges::new(), &terrain, origin(), Vec::new());
    assert!(tick.jobs.is_empty());
    assert_eq!(waiting(&store), row(&[5, 5]));
    terrain.add_chunk(IVec3::new(6, 1, 1), air());
    let tick = store.update(&TerrainChanges::new(), &terrain, origin(), Vec::new());
    assert_eq!(positions(&tick.jobs), row(&[5, 5]));
    assert!(store.meshes_todo().is_empty());
}

#[test]
fn unloading_forgets_the_mesh_and_what_waits_around_it() {
    let (mut terrain, mut store, _) = busy_store();
    store.insert_chunk(IVec3::new(6, 0, 1), 1);
    store.insert_chunk(IVec3::new(5, 0, 0), 2);
    store.insert_chunk(IVec3::new(0, 0, 0), 3);
    terrain.remove_chunk(IVec3::new(6, 0, 1));
    let tick =
        store.update(&unloaded(&[IVec3::new(6, 0, 1)]), &terrain, origin(), Vec::new());
    // (5, 0, 0) lies beside the chunk that went; (4, 0, 0) does not.
    assert_eq!(positions(&tick.jobs), row(&[-1, 0, 0, 1, 1, 2, 2, 3, 3, 4]));
    assert_eq!(waiting(&store), row(&[4]));
    assert_eq!(store.get_mesh(IVec3::new(6, 0, 1)), None);
    assert_eq!(store.get_mesh(IVec3::new(5, 0, 0)), Some(&2));
    assert_eq!(store.get_mesh(IVec3::new(0, 0, 0)), Some(&3));
}

#[test]
fn meshes_of_chunks_that_went_are_not_uploaded() {
    let terrain = terrain_with((0, 0, 0), (1, 0, 0));
    let mut store: TerrainMesh<u32> = TerrainMesh::new();
    let done = vec![
        (IVec3::new(1, 0, 0), no_mesh()),
        (IVec3::new(2, 0, 0), no_mesh()),
        (IVec3::new(0, 0, 0), no_mesh()),
        (IVec3::new(0, 1, 0), no_mesh()),
    ];
    let tick = store.update(&TerrainChanges::new(), &terrain, origin(), done);
    let kept: Vec<IVec3> = tick.uploads.iter().map(|e| e.0).collect();
    assert_eq!(kept, [IVec3::new(1, 0, 0), IVec3::new(0, 0, 0)]);
    // The store puts no mesh in by itself.
    assert!(store.get_meshes().is_empty());
}

#[test]
fn idle_ticks_change_nothing() {
    let terrain = terrain_with((-1, -1, -1), (1, 1, 1));
    let mut store: TerrainMesh<u32> = TerrainMesh::new();
    store.insert_chunk(origin(), 7);
    for _ in 0..2 {
        let tick = store.update(&TerrainChanges::new(), &terrain, origin(), Vec::new());
        assert!(tick.jobs.is_empty());
        assert!(tick.uploads.is_empty());
        assert!(store.meshes_todo().is_empty());
        assert_eq!(store.get_meshes(), [&7]);
        assert_eq!(store.mesh_positions(), [origin()]);
    }
}
