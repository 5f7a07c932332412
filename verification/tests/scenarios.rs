use std::collections::HashSet;
use voxel_terrain::block::BlockType;
use voxel_terrain::chunk::{Chunk, ChunkData};
use voxel_terrain::coords::{IVec3, UVec3};
use voxel_terrain::generator::ChunkGenResponse;
use voxel_terrain::mesh::CMesh;
use voxel_terrain::mesh_store::TerrainMesh;
use voxel_terrain::terrain::{Terrain, TerrainChanges};

/// The two stores and the work that is under way between them. What a tick
/// hands out comes back at the next tick.
struct World {
    terrain: Terrain,
    meshes: TerrainMesh<usize>,
    generated: Vec<ChunkGenResponse>,
    built: Vec<(IVec3, CMesh)>,
    ground: bool,
    unloaded: Vec<Vec<IVec3>>,
    jobs: Vec<Vec<IVec3>>,
}

impl World {
    fn new(render_distance: u8, ground: bool) -> World {
        World {
            terrain: Terrain::with_render_distance(render_distance),
            meshes: TerrainMesh::new(),
            generated: Vec::new(),
            built: Vec::new(),
            ground,
            unloaded: Vec::new(),
            jobs: Vec::new(),
        }
    }

    fn generate(&self, p: IVec3) -> ChunkGenResponse {
        let mut chunk = Chunk::new();
        if self.ground && p.y == 0 {
            for x in 0..32 {
                for z in 0..32 {
                    chunk.set_block(BlockType::Stone, UVec3::new(x, 0, z));
                }
            }
        }
        ChunkGenResponse { position: p, data: ChunkData::new(chunk) }
    }

    fn tick(&mut self, player: IVec3, edits: TerrainChanges) {
        let generated = std::mem::take(&mut self.generated);
        let tick = self.terrain.update(player, edits, generated);
        assert!(tick.overwritten.is_empty());
        for p in &tick.dispatched {
            self.generated.push(self.generate(*p));
        }
        let built = std::mem::take(&mut self.built);
        let work = self.meshes.update(&tick.changes, &self.terrain, player, built);
        let mut handed_out = Vec::new();
        for job in work.jobs {
            assert!(self.terrain.check_neighbors(job.position));
            handed_out.push(job.position);
            self.built.push(job.build());
        }
        for (p, mesh) in work.uploads {
            assert!(self.terrain.get_chunk(p).is_some());
            self.meshes.insert_chunk(p, mesh.vertices.len());
        }
        self.unloaded.push(tick.changes.unloaded_chunks);
        self.jobs.push(handed_out);
    }

    fn settle(&mut self, player: IVec3) -> usize {
        let mut ticks = 0;
        loop {
            self.tick(player, TerrainChanges::new());
            ticks += 1;
            assert!(ticks < 1000);
            if self.terrain.load_todo().is_empty()
                && self.terrain.loading().is_empty()
                && self.terrain.unload_todo().is_empty()
                && self.generated.is_empty()
                && self.built.is_empty()
                && self.meshes.meshes_todo().is_empty()
            {
                return ticks;
            }
        }
    }
}

fn origin() -> IVec3 {
    IVec3::new(0, 0, 0)
}

fn cube(center: IVec3, r: i32) -> HashSet<IVec3> {
    let mut set = HashSet::new();
    for x in -r..=r {
        for y in -r..=r {
            for z in -r..=r {
                set.insert(IVec3::new(center.x + x, center.y + y, center.z + z));
            }
        }
    }
    set
}

fn resident(world: &World) -> HashSet<IVec3> {
    world.terrain.chunk_positions().into_iter().collect()
}

#[test]
fn a_store_settles_with_the_chunks_around_the_observer_loaded() {
    let mut world = World::new(0, true);
    world.settle(origin());
    assert!(world.terrain.load_todo().is_empty());
    assert!(world.terrain.loading().is_empty());
    assert_eq!(resident(&world).len(), 27);
    assert_eq!(resident(&world), cube(origin(), 1));
    // Only the chunk of the observer has all its neighbours.
    assert_eq!(world.meshes.mesh_positions(), [origin()]);
}

#[test]
fn a_store_with_render_distance_one_loads_two_chunks_far() {
    let mut world = World::new(1, true);
    world.settle(origin());
    assert_eq!(resident(&world).len(), 125);
    assert_eq!(resident(&world), cube(origin(), 2));
    let meshed: HashSet<IVec3> = world.meshes.mesh_positions().into_iter().collect();
    let expected: HashSet<IVec3> = cube(origin(), 1).into_iter().filter(|p| p.y == 0).collect();
    assert_eq!(meshed, expected);
    // The ground is one block thick and shows its top and its bottom; its
    // sides are hidden by the ground of the chunks around.
    for p in &meshed {
        assert_eq!(world.meshes.get_mesh(*p), Some(&(4 * 2 * 32 * 32)));
    }
}

#[test]
fn every_loaded_chunk_notes_whether_it_is_empty() {
    let mut world = World::new(1, true);
    world.settle(origin());
    for p in world.terrain.chunk_positions() {
        let data = world.terrain.get_chunk(p).unwrap();
        let all_air = data.chunk().blocks.iter().all(|b| *b == BlockType::Air);
        assert_eq!(data.is_empty(), all_air);
        assert_eq!(data.is_empty(), p.y != 0);
    }
}

#[test]
fn a_block_put_into_an_empty_chunk_queues_it_for_meshing() {
    let mut world = World::new(0, false);
    world.settle(origin());
    assert_eq!(resident(&world), cube(origin(), 1));
    assert!(world.terrain.get_chunk(origin()).unwrap().is_empty());
    assert!(world.meshes.get_meshes().is_empty());
    assert!(world.jobs.iter().all(|jobs| jobs.is_empty()));

    let mut edits = TerrainChanges::new();
    edits.add_edit(origin(), UVec3::new(7, 8, 9), BlockType::Stone);
    world.tick(origin(), edits);
    assert!(!world.terrain.get_chunk(origin()).unwrap().is_empty());
    assert_eq!(world.jobs.last().unwrap(), &[origin()]);
    world.tick(origin(), TerrainChanges::new());
    assert_eq!(world.meshes.get_mesh(origin()), Some(&24));
    assert!(world.jobs.last().unwrap().is_empty());
}

#[test]
fn an_edit_at_the_border_meshes_the_neighbor_anew() {
    let mut world = World::new(1, true);
    world.settle(origin());
    let before = world.jobs.len();
    let mut edits = TerrainChanges::new();
    edits.add_edit(origin(), UVec3::new(31, 1, 5), BlockType::Stone);
    world.tick(origin(), edits);
    let jobs: HashSet<IVec3> = world.jobs[before].iter().copied().collect();
    let expected: HashSet<IVec3> = cube(origin(), 1).into_iter().filter(|p| p.y == 0).collect();
    assert_eq!(jobs, expected);
    assert_eq!(world.jobs[before].len(), 9);
    world.tick(origin(), TerrainChanges::new());
    // The block stands on the ground: five faces more, one less below it.
    assert_eq!(world.meshes.get_mesh(origin()), Some(&(4 * (2 * 32 * 32 + 4))));
    assert_eq!(world.meshes.get_mesh(IVec3::new(1, 0, 0)), Some(&(4 * 2 * 32 * 32)));
}

#[test]
fn a_chunk_that_falls_out_of_reach_is_unloaded_and_never_meshed_again() {
    let mut world = World::new(0, true);
    world.settle(origin());
    assert_eq!(world.meshes.mesh_positions(), [origin()]);
    let loaded_before = resident(&world).len();
    assert_eq!(loaded_before, 27);

    let there = IVec3::new(5, 0, 0);
    let start = world.unloaded.len();
    let ticks = world.settle(there);
    // Ten chunks go with each tick: all 27 are gone after three.
    let allowed = (loaded_before + 9) / 10;
    let gone: Vec<IVec3> =
        world.unloaded[start..start + allowed].iter().flatten().copied().collect();
    assert_eq!(gone.len(), 27);
    assert!(gone.contains(&origin()));
    assert_eq!(gone.iter().copied().collect::<HashSet<IVec3>>(), cube(origin(), 1));
    assert_eq!(world.unloaded[start].len(), 10);
    assert_eq!(world.unloaded[start + 1].len(), 10);
    assert_eq!(world.unloaded[start + 2].len(), 7);
    assert!(ticks >= allowed);

    assert_eq!(resident(&world), cube(there, 1));
    assert_eq!(world.meshes.get_mesh(origin()), None);
    assert_eq!(world.meshes.mesh_positions(), [there]);
    // A mesh of the chunk that comes late is not taken.
    world.built.push((origin(), CMesh::new(Vec::new(), Vec::new())));
    world.tick(there, TerrainChanges::new());
    world.tick(there, TerrainChanges::new());
    assert_eq!(world.meshes.get_mesh(origin()), None);
    assert_eq!(world.meshes.mesh_positions(), [there]);
}

#[test]
fn a_walk_keeps_the_reach_of_the_observer_loaded() {
    let mut world = World::new(1, true);
    let mut at = origin();
    for step in 0..6 {
        at = IVec3::new(step, step % 2, -step);
        world.settle(at);
    }
    assert_eq!(at, IVec3::new(5, 1, -5));
    assert_eq!(resident(&world), cube(at, 2));
    // What can be shown has a mesh; a mesh stays as long as its chunk does.
    let meshed: HashSet<IVec3> = world.meshes.mesh_positions().into_iter().collect();
    let shown: HashSet<IVec3> = cube(at, 1).into_iter().filter(|p| p.y == 0).collect();
    assert_eq!(shown.len(), 9);
    assert!(shown.is_subset(&meshed));
    for p in &meshed {
        assert!(!world.terrain.get_chunk(*p).unwrap().is_empty());
    }
}
