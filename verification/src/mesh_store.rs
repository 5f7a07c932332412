//! The mesh store: the meshes of the chunks that are shown, and the decisions
//! which chunk to mesh next.
//!
//! The store does no work outside of itself. A tick takes the meshes that
//! were built since the last one and hands out what to build next and what
//! to upload; whoever drives the store builds the meshes, uploads them and
//! puts the handles into the store.

use vstd::prelude::*;
use std::collections::VecDeque;
use crate::chunk::{Chunk, NEIGHBORHOOD};
use crate::coords::{is_beyond, reversed, scan_offset, IVec3};
use crate::mesh::CMesh;
use crate::mesher::{mesh_chunk, mesh_vertices};
use crate::table::ChunkTable;
use crate::terrain::{BlockChanges, Terrain, TerrainChanges, TerrainView};

verus! {

/// The most chunks that one tick hands out for meshing.
pub const MESHES_PER_TICK: usize = 10;

/// What it takes to build the mesh of a chunk: the chunk and the 27 chunks of
/// its neighbourhood, as they were when the job was made.
#[derive(Debug)]
pub struct MeshJob {
    pub position: IVec3,
    pub chunk: Chunk,
    pub neighbors: Vec<Chunk>,
}

impl MeshJob {
    /// Whether the job is the one for the chunk at `c` of a terrain.
    pub open spec fn is_for(self, t: TerrainView, c: IVec3) -> bool {
        &&& self.position == c
        &&& t.chunks.contains_key(c)
        &&& self.chunk == t.chunks[c]
        &&& self.neighbors@.len() == NEIGHBORHOOD
        &&& forall|n: int|
            0 <= n < 27 ==> match #[trigger] c.spec_neighbor(n) {
                Some(q) => t.chunks.contains_key(q) && self.neighbors@[n] == t.chunks[q],
                None => false,
            }
    }

    /// Makes the job for the chunk at `c`, if the chunk and the 26 chunks
    /// around it are all loaded.
    pub fn new(terrain: &Terrain, c: IVec3) -> (r: Option<MeshJob>)
        ensures
            r.is_some() == terrain@.neighbors_complete(c),
            r.is_some() ==> r.unwrap().is_for(terrain@, c),
    {
        let mut neighbors: Vec<Chunk> = Vec::new();
        let mut n: usize = 0;
        while n < 27
            invariant
                n <= 27,
                neighbors@.len() == n,
                forall|k: int|
                    0 <= k < n ==> match #[trigger] c.spec_neighbor(k) {
                        Some(q) => terrain@.chunks.contains_key(q) && neighbors@[k]
                            == terrain@.chunks[q],
                        None => false,
                    },
            decreases 27 - n,
        {
            match c.neighbor(n) {
                Some(q) => match terrain.get_chunk(q) {
                    Some(data) => {
                        neighbors.push(data.chunk().clone());
                    },
                    None => {
                        return None;
                    },
                },
                None => {
                    return None;
                },
            }
            n += 1;
        }
        proof {
            assert(c.spec_neighbor(13) == Some(c));
        }
        let chunk = neighbors[13].clone();
        Some(MeshJob { position: c, chunk, neighbors })
    }

    /// Builds the mesh that the job is for.
    pub fn build(self) -> (r: (IVec3, CMesh))
        requires
            self.neighbors@.len() == NEIGHBORHOOD,
        ensures
            r.0 == self.position,
            r.1.vertices@ == mesh_vertices(
                self.position,
                self.chunk,
                self.neighbors@,
                (6 * 32768) as nat,
            ),
            r.1.is_quad_mesh(),
    {
        let position = self.position;
        let mesh = mesh_chunk(position, self.chunk, self.neighbors.as_slice());
        (position, mesh)
    }
}

/// Whether a list holds a coordinate.
fn queue_contains(queue: &VecDeque<IVec3>, p: IVec3) -> (r: bool)
    ensures
        r == queue@.contains(p),
{
    let mut i: usize = 0;
    while i < queue.len()
        invariant
            i <= queue.len(),
            forall|j: int| 0 <= j < i ==> queue@[j] != p,
        decreases queue.len() - i,
    {
        if queue[i] == p {
            return true;
        }
        i += 1;
    }
    false
}

/// Takes every coordinate out of a list that is at most `reach` away from
/// `p`; the others keep their order.
fn queue_remove(queue: &mut VecDeque<IVec3>, p: IVec3, reach: i32)
    ensures
        final(queue)@ == old(queue)@.filter(is_beyond(p, reach as int)),
{
    let mut kept: VecDeque<IVec3> = VecDeque::new();
    let mut i: usize = 0;
    proof {
        reveal(Seq::filter);
        assert(queue@.take(0) =~= Seq::<IVec3>::empty());
    }
    while i < queue.len()
        invariant
            i <= queue.len(),
            queue@ == old(queue)@,
            kept@ == queue@.take(i as int).filter(is_beyond(p, reach as int)),
        decreases queue.len() - i,
    {
        proof {
            assert(queue@.take(i + 1) =~= queue@.take(i as int).push(queue@[i as int]));
            queue@.take(i as int).lemma_filter_push(queue@[i as int], is_beyond(p, reach as int));
        }
        let q = queue[i];
        if !q.within(p, reach) {
            kept.push_back(q);
        }
        i += 1;
    }
    proof {
        assert(queue@.take(queue@.len() as int) =~= queue@);
    }
    *queue = kept;
}

/// Whether the chunk at `n` is to be queued for meshing when something
/// changed next to it: it is not queued yet, it is loaded and not empty, and
/// the 26 chunks around it are loaded.
pub open spec fn wants_mesh(t: TerrainView, queue: Seq<IVec3>, n: IVec3) -> bool {
    &&& !queue.contains(n)
    &&& shown(t, n)
}

/// Whether the chunk at `n` can be shown: it is loaded and not empty, and the
/// 26 chunks around it are loaded. How far it is from the observer does not
/// matter: what is loaded and complete is meshed.
pub open spec fn shown(t: TerrainView, n: IVec3) -> bool {
    &&& t.chunks.contains_key(n)
    &&& !t.chunks[n].all_air()
    &&& t.neighbors_complete(n)
}

/// A list with one more coordinate, in front or at the back.
pub open spec fn enqueued(queue: Seq<IVec3>, n: IVec3, front: bool) -> Seq<IVec3> {
    if front {
        seq![n] + queue
    } else {
        queue.push(n)
    }
}

/// The list after the first `steps` coordinates of the neighbourhood of `c`
/// were looked at, each queued where `wants_mesh` says so.
pub open spec fn with_neighbors(
    queue: Seq<IVec3>,
    t: TerrainView,
    c: IVec3,
    steps: nat,
    front: bool,
) -> Seq<IVec3>
    decreases steps,
{
    if steps == 0 {
        queue
    } else {
        let before = with_neighbors(queue, t, c, (steps - 1) as nat, front);
        match c.spec_moved(scan_offset(steps - 1)) {
            Some(n) => if wants_mesh(t, before, n) {
                enqueued(before, n, front)
            } else {
                before
            },
            None => before,
        }
    }
}

/// The list after blocks were replaced in the chunk at `c`: the chunk goes
/// to the front if the 26 chunks around it are loaded, and so does each
/// chunk of its neighbourhood that `wants_mesh`.
pub open spec fn with_modified_chunk(queue: Seq<IVec3>, t: TerrainView, c: IVec3)
    -> Seq<IVec3> {
    with_neighbors(
        if t.neighbors_complete(c) {
            seq![c] + queue
        } else {
            queue
        },
        t,
        c,
        27,
        true,
    )
}

/// The list after blocks were replaced in chunks, one chunk after the other.
pub open spec fn with_modified(
    queue: Seq<IVec3>,
    t: TerrainView,
    modified: Seq<(IVec3, BlockChanges)>,
) -> Seq<IVec3>
    decreases modified.len(),
{
    if modified.len() == 0 {
        queue
    } else {
        with_modified_chunk(
            with_modified(queue, t, modified.drop_last()),
            t,
            modified.last().0,
        )
    }
}

/// The list after the chunk at `c` was loaded: the chunk goes to the back if
/// it can be shown, and so does each chunk of its neighbourhood that
/// `wants_mesh`.
pub open spec fn with_loaded_chunk(queue: Seq<IVec3>, t: TerrainView, c: IVec3)
    -> Seq<IVec3> {
    with_neighbors(
        if shown(t, c) {
            queue.push(c)
        } else {
            queue
        },
        t,
        c,
        27,
        false,
    )
}

/// The list after chunks were loaded, one after the other.
pub open spec fn with_loaded(queue: Seq<IVec3>, t: TerrainView, loaded: Seq<IVec3>)
    -> Seq<IVec3>
    decreases loaded.len(),
{
    if loaded.len() == 0 {
        queue
    } else {
        with_loaded_chunk(with_loaded(queue, t, loaded.drop_last()), t, loaded.last())
    }
}

/// The list after chunks were unloaded: without them, and without the chunks
/// around them.
pub open spec fn purged(queue: Seq<IVec3>, unloaded: Seq<IVec3>) -> Seq<IVec3>
    decreases unloaded.len(),
{
    if unloaded.len() == 0 {
        queue
    } else {
        purged(queue, unloaded.drop_last()).filter(is_beyond(unloaded.last(), 1))
    }
}

/// The list after one coordinate was taken from its front: handed out if the
/// chunk and the 26 around it are loaded, and put at the back if not.
pub open spec fn dispatch_step(queue: Seq<IVec3>, t: TerrainView) -> Seq<IVec3> {
    if queue.len() == 0 {
        queue
    } else if t.neighbors_complete(queue.first()) {
        queue.drop_first()
    } else {
        queue.drop_first().push(queue.first())
    }
}

/// The list after up to `count` coordinates were taken from its front.
pub open spec fn dispatch_queue(queue: Seq<IVec3>, t: TerrainView, count: nat) -> Seq<IVec3>
    decreases count,
{
    if count == 0 {
        queue
    } else {
        dispatch_step(dispatch_queue(queue, t, (count - 1) as nat), t)
    }
}

/// The coordinates that are handed out when up to `count` coordinates are
/// taken from the front of the list.
pub open spec fn dispatched(queue: Seq<IVec3>, t: TerrainView, count: nat) -> Seq<IVec3>
    decreases count,
{
    if count == 0 {
        Seq::empty()
    } else {
        let before = dispatch_queue(queue, t, (count - 1) as nat);
        if before.len() > 0 && t.neighbors_complete(before.first()) {
            dispatched(queue, t, (count - 1) as nat).push(before.first())
        } else {
            dispatched(queue, t, (count - 1) as nat)
        }
    }
}

/// The test that a mesh is for a chunk of `chunks`.
pub open spec fn mesh_of(chunks: Map<IVec3, Chunk>) -> spec_fn((IVec3, CMesh)) -> bool {
    |e: (IVec3, CMesh)| chunks.contains_key(e.0)
}

/// The mesh store as contracts see it.
pub struct MeshesView<H> {
    /// The chunk that the observer was in at the last tick.
    pub player_chunk: IVec3,
    /// The meshes of the chunks that are shown.
    pub meshed: Map<IVec3, H>,
    /// The coordinates that wait to be meshed; the first one goes first.
    pub meshes_todo: Seq<IVec3>,
}

impl<H> MeshesView<H> {
    /// The store after chunks were unloaded: without their meshes, and with
    /// neither them nor the chunks around them waiting to be meshed.
    pub open spec fn without(self, unloaded: Seq<IVec3>) -> MeshesView<H>
        decreases unloaded.len(),
    {
        if unloaded.len() == 0 {
            self
        } else {
            let before = self.without(unloaded.drop_last());
            MeshesView {
                meshed: before.meshed.remove(unloaded.last()),
                meshes_todo: before.meshes_todo.filter(is_beyond(unloaded.last(), 1)),
                ..before
            }
        }
    }

    /// The store after a tick, with the observer in the chunk at `player` of
    /// the terrain `t`, in which `changes` has just happened.
    pub open spec fn after_tick(self, t: TerrainView, changes: TerrainChanges, player: IVec3)
        -> MeshesView<H> {
        let cleared = (MeshesView { player_chunk: player, ..self }).without(
            changes.unloaded_chunks@,
        );
        MeshesView {
            meshes_todo: dispatch_queue(
                queue_before_dispatch(cleared.meshes_todo, t, changes),
                t,
                MESHES_PER_TICK as nat,
            ),
            ..cleared
        }
    }
}

/// The list of a tick when it comes to handing out, made from the list that
/// the unloaded chunks left.
pub open spec fn queue_before_dispatch(
    cleared: Seq<IVec3>,
    t: TerrainView,
    changes: TerrainChanges,
) -> Seq<IVec3> {
    with_loaded(
        with_modified(cleared, t, changes.modified_chunks@),
        t,
        changes.loaded_chunks@,
    )
}

/// What a tick hands back.
#[derive(Debug)]
pub struct MeshTick {
    /// The meshes to build.
    pub jobs: Vec<MeshJob>,
    /// The meshes to upload and to put into the store: those that were built
    /// for a chunk that is still loaded.
    pub uploads: Vec<(IVec3, CMesh)>,
}

/// The meshes of the chunks that are shown, with the list of what to mesh
/// next. `H` is what stands for a mesh once it was uploaded.
pub struct TerrainMesh<H> {
    player_chunk: IVec3,
    meshed_chunks: ChunkTable<H>,
    meshes_todo: VecDeque<IVec3>,
}

impl<H> View for TerrainMesh<H> {
    type V = MeshesView<H>;

    closed spec fn view(&self) -> MeshesView<H> {
        MeshesView {
            player_chunk: self.player_chunk,
            meshed: self.meshed_chunks@,
            meshes_todo: self.meshes_todo@,
        }
    }
}

impl<H> TerrainMesh<H> {
    /// A store without meshes, with the observer at the origin.
    pub fn new() -> (store: Self)
        ensures
            store@ == (MeshesView::<H> {
                player_chunk: IVec3 { x: 0, y: 0, z: 0 },
                meshed: Map::empty(),
                meshes_todo: Seq::empty(),
            }),
    {
        TerrainMesh {
            player_chunk: IVec3 { x: 0, y: 0, z: 0 },
            meshed_chunks: ChunkTable::new(),
            meshes_todo: VecDeque::new(),
        }
    }

    /// The chunk that the observer was in at the last tick.
    pub fn player_chunk(&self) -> (p: IVec3)
        ensures
            p == self@.player_chunk,
    {
        self.player_chunk
    }

    /// The coordinates that wait to be meshed; the first one goes first.
    pub fn meshes_todo(&self) -> (list: &VecDeque<IVec3>)
        ensures
            list@ == self@.meshes_todo,
    {
        &self.meshes_todo
    }

    /// The mesh of the chunk at a coordinate, if the store has one.
    pub fn get_mesh(&self, chunk_pos: IVec3) -> (r: Option<&H>)
        ensures
            r.is_some() == self@.meshed.contains_key(chunk_pos),
            r.is_some() ==> *r.unwrap() == self@.meshed[chunk_pos],
    {
        self.meshed_chunks.get(chunk_pos)
    }

    /// The coordinates of the chunks that have a mesh, each once, in no
    /// order that could be told beforehand.
    pub fn mesh_positions(&self) -> (list: Vec<IVec3>)
        ensures
            list@.no_duplicates(),
            forall|p: IVec3| list@.contains(p) <==> self@.meshed.contains_key(p),
    {
        self.meshed_chunks.keys()
    }

    /// Puts the mesh of a chunk into the store, in place of the one that
    /// was there.
    pub fn insert_chunk(&mut self, chunk_pos: IVec3, mesh: H)
        ensures
            final(self)@ == (MeshesView {
                meshed: old(self)@.meshed.insert(chunk_pos, mesh),
                ..old(self)@
            }),
    {
        let _ = self.meshed_chunks.insert(chunk_pos, mesh);
    }

    /// Takes the mesh of a chunk out of the store, and the chunk out of the
    /// list of what to mesh.
    pub fn remove_chunk(&mut self, chunk_pos: IVec3)
        ensures
            final(self)@ == (MeshesView {
                meshed: old(self)@.meshed.remove(chunk_pos),
                meshes_todo: old(self)@.meshes_todo.filter(is_beyond(chunk_pos, 0)),
                ..old(self)@
            }),
    {
        let _ = self.meshed_chunks.remove(chunk_pos);
        queue_remove(&mut self.meshes_todo, chunk_pos, 0);
    }

    /// The meshes of the store, in no order that could be told beforehand:
    /// as many as there are chunks with a mesh, each of them the mesh of
    /// some chunk, and none left out.
    pub fn get_meshes(&self) -> (meshes: Vec<&H>)
        ensures
            meshes@.len() == self@.meshed.dom().len(),
            forall|i: int| 0 <= i < meshes@.len() ==> self@.meshed.values().contains(*#[trigger] meshes@[i]),
            forall|p: IVec3| #[trigger]
                self@.meshed.contains_key(p) ==> exists|i: int|
                    0 <= i < meshes@.len() && *#[trigger] meshes@[i] == self@.meshed[p],
    {
        self.meshed_chunks.values()
    }
}

/// Keeps the meshes that were built for a chunk that is still loaded.
fn accept_meshes(terrain: &Terrain, completed: Vec<(IVec3, CMesh)>) -> (uploads: Vec<
    (IVec3, CMesh),
>)
    ensures
        uploads@ == completed@.filter(mesh_of(terrain@.chunks)),
{
    let ghost n = completed@.len() as int;
    let mut stack = reversed(completed);
    let mut uploads: Vec<(IVec3, CMesh)> = Vec::new();
    proof {
        reveal(Seq::filter);
        assert(completed@.take(0) =~= Seq::empty());
    }
    while stack.len() > 0
        invariant
            n == completed@.len(),
            stack@.len() <= n,
            stack@ == completed@.reverse().take(stack@.len() as int),
            uploads@ == completed@.take(n - stack@.len()).filter(mesh_of(terrain@.chunks)),
        decreases stack.len(),
    {
        let ghost i = n - stack@.len();
        let entry = stack.pop().unwrap();
        proof {
            assert(entry == completed@[i]);
            assert(completed@.take(i + 1) =~= completed@.take(i).push(entry));
            completed@.take(i).lemma_filter_push(entry, mesh_of(terrain@.chunks));
            assert(stack@ =~= completed@.reverse().take(stack@.len() as int));
        }
        if terrain.get_chunk(entry.0).is_some() {
            uploads.push(entry);
        }
    }
    proof {
        assert(completed@.take(n) =~= completed@);
    }
    uploads
}

impl<H> TerrainMesh<H> {
    /// Whether the chunk at `n` can be shown.
    fn is_shown(&self, terrain: &Terrain, n: IVec3) -> (r: bool)
        ensures
            r == shown(terrain@, n),
    {
        match terrain.get_chunk(n) {
            Some(data) => !data.is_empty() && terrain.check_neighbors(n),
            None => false,
        }
    }

    /// Forgets the chunks that were unloaded.
    fn forget(&mut self, unloaded: &Vec<IVec3>)
        ensures
            final(self)@ == old(self)@.without(unloaded@),
    {
        let mut i: usize = 0;
        while i < unloaded.len()
            invariant
                i <= unloaded.len(),
                self@ == old(self)@.without(unloaded@.take(i as int)),
            decreases unloaded.len() - i,
        {
            proof {
                assert(unloaded@.take(i + 1).drop_last() =~= unloaded@.take(i as int));
            }
            let _ = self.meshed_chunks.remove(unloaded[i]);
            queue_remove(&mut self.meshes_todo, unloaded[i], 1);
            i += 1;
        }
        proof {
            assert(unloaded@.take(unloaded@.len() as int) =~= unloaded@);
        }
    }

    /// Looks at the chunks of the neighbourhood of `c` and queues those that
    /// want a mesh, in front or at the back.
    fn queue_neighbors(&mut self, terrain: &Terrain, c: IVec3, front: bool)
        ensures
            final(self)@ == (MeshesView {
                meshes_todo: with_neighbors(
                    old(self)@.meshes_todo,
                    terrain@,
                    c,
                    27,
                    front,
                ),
                ..old(self)@
            }),
    {
        let mut m: usize = 0;
        while m < 27
            invariant
                m <= 27,
                self@ == (MeshesView {
                    meshes_todo: with_neighbors(
                        old(self)@.meshes_todo,
                        terrain@,
                        c,
                        m as nat,
                        front,
                    ),
                    ..old(self)@
                }),
            decreases 27 - m,
        {
            match c.scan_neighbor(m) {
                Some(n_pos) => {
                    if !queue_contains(&self.meshes_todo, n_pos) && self.is_shown(terrain, n_pos) {
                        if front {
                            self.meshes_todo.push_front(n_pos);
                        } else {
                            self.meshes_todo.push_back(n_pos);
                        }
                    }
                },
                None => {},
            }
            m += 1;
        }
    }

    /// Queues what is to be meshed anew after blocks were replaced.
    fn queue_modified(&mut self, terrain: &Terrain, modified: &Vec<(IVec3, BlockChanges)>)
        ensures
            final(self)@ == (MeshesView {
                meshes_todo: with_modified(
                    old(self)@.meshes_todo,
                    terrain@,
                    modified@,
                ),
                ..old(self)@
            }),
    {
        let mut i: usize = 0;
        while i < modified.len()
            invariant
                i <= modified.len(),
                self@ == (MeshesView {
                    meshes_todo: with_modified(
                        old(self)@.meshes_todo,
                        terrain@,
                        modified@.take(i as int),
                    ),
                    ..old(self)@
                }),
            decreases modified.len() - i,
        {
            proof {
                assert(modified@.take(i + 1).drop_last() =~= modified@.take(i as int));
            }
            let chunk = modified[i].0;
            if terrain.check_neighbors(chunk) {
                self.meshes_todo.push_front(chunk);
            }
            self.queue_neighbors(terrain, chunk, true);
            i += 1;
        }
        proof {
            assert(modified@.take(modified@.len() as int) =~= modified@);
        }
    }

    /// Queues what is to be meshed after chunks were loaded.
    fn queue_loaded(&mut self, terrain: &Terrain, loaded: &Vec<IVec3>)
        ensures
            final(self)@ == (MeshesView {
                meshes_todo: with_loaded(
                    old(self)@.meshes_todo,
                    terrain@,
                    loaded@,
                ),
                ..old(self)@
            }),
    {
        let mut i: usize = 0;
        while i < loaded.len()
            invariant
                i <= loaded.len(),
                self@ == (MeshesView {
                    meshes_todo: with_loaded(
                        old(self)@.meshes_todo,
                        terrain@,
                        loaded@.take(i as int),
                    ),
                    ..old(self)@
                }),
            decreases loaded.len() - i,
        {
            proof {
                assert(loaded@.take(i + 1).drop_last() =~= loaded@.take(i as int));
            }
            let chunk = loaded[i];
            if self.is_shown(terrain, chunk) {
                self.meshes_todo.push_back(chunk);
            }
            self.queue_neighbors(terrain, chunk, false);
            i += 1;
        }
        proof {
            assert(loaded@.take(loaded@.len() as int) =~= loaded@);
        }
    }

    /// Takes up to `MESHES_PER_TICK` coordinates from the front of the list
    /// and makes a job for each whose neighbourhood is loaded; the others go
    /// to the back of the list.
    fn dispatch(&mut self, terrain: &Terrain) -> (jobs: Vec<MeshJob>)
        ensures
            final(self)@ == (MeshesView {
                meshes_todo: dispatch_queue(
                    old(self)@.meshes_todo,
                    terrain@,
                    MESHES_PER_TICK as nat,
                ),
                ..old(self)@
            }),
            jobs@.len() == dispatched(old(self)@.meshes_todo, terrain@, MESHES_PER_TICK as nat).len(),
            forall|i: int|
                0 <= i < jobs@.len() ==> (#[trigger] jobs@[i]).is_for(
                    terrain@,
                    dispatched(old(self)@.meshes_todo, terrain@, MESHES_PER_TICK as nat)[i],
                ),
    {
        let mut jobs: Vec<MeshJob> = Vec::new();
        let mut i: usize = 0;
        while i < MESHES_PER_TICK
            invariant
                i <= MESHES_PER_TICK,
                self@ == (MeshesView {
                    meshes_todo: dispatch_queue(old(self)@.meshes_todo, terrain@, i as nat),
                    ..old(self)@
                }),
                jobs@.len() == dispatched(old(self)@.meshes_todo, terrain@, i as nat).len(),
                forall|k: int|
                    0 <= k < jobs@.len() ==> (#[trigger] jobs@[k]).is_for(
                        terrain@,
                        dispatched(old(self)@.meshes_todo, terrain@, i as nat)[k],
                    ),
            decreases MESHES_PER_TICK - i,
        {
            let ghost before = self@.meshes_todo;
            if let Some(chunk) = self.meshes_todo.pop_front() {
                proof {
                    assert(self@.meshes_todo =~= before.drop_first());
                }
                match MeshJob::new(terrain, chunk) {
                    Some(job) => {
                        jobs.push(job);
                    },
                    None => {
                        self.meshes_todo.push_back(chunk);
                    },
                }
            }
            i += 1;
        }
        jobs
    }

    /// One tick of the store, with the observer in the chunk at `player_pos`
    /// of a terrain in which `terrain_changes` has just happened.
    ///
    /// The tick forgets the chunks that were unloaded; queues what is to be
    /// meshed anew after blocks were replaced, in front of the list; queues
    /// what can be meshed after chunks were loaded, at the back; hands out up
    /// to `MESHES_PER_TICK` jobs, each for a chunk whose neighbourhood is
    /// loaded; and among `completed`, the meshes that were built since the
    /// last tick, picks for upload those whose chunk is still loaded.
    pub fn update(
        &mut self,
        terrain_changes: &TerrainChanges,
        terrain_data: &Terrain,
        player_pos: IVec3,
        completed: Vec<(IVec3, CMesh)>,
    ) -> (tick: MeshTick)
        ensures
            final(self)@ == old(self)@.after_tick(terrain_data@, *terrain_changes, player_pos),
            tick.uploads@ == completed@.filter(mesh_of(terrain_data@.chunks)),
            tick.jobs@.len() == jobs_of_tick(
                old(self)@,
                terrain_data@,
                *terrain_changes,
                player_pos,
            ).len(),
            forall|i: int|
                0 <= i < tick.jobs@.len() ==> (#[trigger] tick.jobs@[i]).is_for(
                    terrain_data@,
                    jobs_of_tick(old(self)@, terrain_data@, *terrain_changes, player_pos)[i],
                ),
            forall|i: int|
                0 <= i < tick.jobs@.len() ==> terrain_data@.neighbors_complete(
                    (#[trigger] tick.jobs@[i]).position,
                ),
    {
        self.player_chunk = player_pos;
        self.forget(&terrain_changes.unloaded_chunks);
        self.queue_modified(terrain_data, &terrain_changes.modified_chunks);
        self.queue_loaded(terrain_data, &terrain_changes.loaded_chunks);
        let ghost queue = self@.meshes_todo;
        let jobs = self.dispatch(terrain_data);
        let uploads = accept_meshes(terrain_data, completed);
        proof {
            let cleared = (MeshesView { player_chunk: player_pos, ..old(self)@ }).without(
                terrain_changes.unloaded_chunks@,
            );
            lemma_without_keeps_player(
                MeshesView { player_chunk: player_pos, ..old(self)@ },
                terrain_changes.unloaded_chunks@,
            );
            assert(queue == queue_before_dispatch(
                cleared.meshes_todo,
                terrain_data@,
                *terrain_changes,
            ));
            lemma_dispatched_complete(queue, terrain_data@, MESHES_PER_TICK as nat);
        }
        MeshTick { jobs, uploads }
    }
}

/// The coordinates of the jobs that a tick hands out, in their order.
pub open spec fn jobs_of_tick<H>(
    store: MeshesView<H>,
    t: TerrainView,
    changes: TerrainChanges,
    player: IVec3,
) -> Seq<IVec3> {
    dispatched(
        queue_before_dispatch(
            (MeshesView { player_chunk: player, ..store }).without(
                changes.unloaded_chunks@,
            ).meshes_todo,
            t,
            changes,
        ),
        t,
        MESHES_PER_TICK as nat,
    )
}

/// Forgetting chunks leaves the observer's chunk as it is.
pub proof fn lemma_without_keeps_player<H>(store: MeshesView<H>, unloaded: Seq<IVec3>)
    ensures
        store.without(unloaded).player_chunk == store.player_chunk,
    decreases unloaded.len(),
{
    if unloaded.len() > 0 {
        lemma_without_keeps_player(store, unloaded.drop_last());
    }
}

/// A chunk is handed out for meshing only when it and the 26 chunks around it
/// are all loaded.
pub proof fn lemma_dispatched_complete(queue: Seq<IVec3>, t: TerrainView, count: nat)
    ensures
        forall|i: int|
            0 <= i < dispatched(queue, t, count).len() ==> t.neighbors_complete(
                #[trigger] dispatched(queue, t, count)[i],
            ),
    decreases count,
{
    if count > 0 {
        lemma_dispatched_complete(queue, t, (count - 1) as nat);
        let before = dispatched(queue, t, (count - 1) as nat);
        let now = dispatched(queue, t, count);
        assert forall|i: int| 0 <= i < now.len() implies t.neighbors_complete(#[trigger] now[i]) by {
            if i < before.len() {
                assert(now[i] == before[i]);
            }
        }
    }
}

/// A chunk that was unloaded has no mesh in the store afterwards, and neither
/// it nor a chunk around it waits to be meshed.
pub proof fn lemma_without_forgets<H>(store: MeshesView<H>, unloaded: Seq<IVec3>, i: int)
    requires
        0 <= i < unloaded.len(),
    ensures
        !store.without(unloaded).meshed.contains_key(unloaded[i]),
        forall|q: IVec3|
            store.without(unloaded).meshes_todo.contains(q) ==> q.spec_distance(unloaded[i]) > 1,
        store.without(unloaded).meshed.dom().subset_of(store.meshed.dom()),
        forall|q: IVec3|
            store.without(unloaded).meshes_todo.contains(q) ==> store.meshes_todo.contains(q),
    decreases unloaded.len(),
{
    let before = store.without(unloaded.drop_last());
    let after = store.without(unloaded);
    let last = unloaded.last();
    if unloaded.len() > 1 {
        lemma_without_forgets(store, unloaded.drop_last(), if i < unloaded.len() - 1 {
            i
        } else {
            0
        });
    }
    assert forall|q: IVec3| after.meshes_todo.contains(q) implies before.meshes_todo.contains(q)
        && q.spec_distance(last) > 1 by {
        let k = choose|k: int| 0 <= k < after.meshes_todo.len() && after.meshes_todo[k] == q;
        before.meshes_todo.lemma_filter_pred(is_beyond(last, 1), k);
        before.meshes_todo.lemma_filter_contains_rev(is_beyond(last, 1), q);
    }
}

/// Looking at the neighbourhood of a chunk adds to the list only chunks that
/// can be shown.
pub proof fn lemma_neighbors_queued_are_shown(
    queue: Seq<IVec3>,
    t: TerrainView,
    c: IVec3,
    steps: nat,
    front: bool,
    q: IVec3,
)
    requires
        with_neighbors(queue, t, c, steps, front).contains(q),
    ensures
        queue.contains(q) || shown(t, q),
    decreases steps,
{
    if steps > 0 {
        let before = with_neighbors(queue, t, c, (steps - 1) as nat, front);
        let now = with_neighbors(queue, t, c, steps, front);
        let k = choose|k: int| 0 <= k < now.len() && now[k] == q;
        if now == before {
            lemma_neighbors_queued_are_shown(queue, t, c, (steps - 1) as nat, front, q);
        } else {
            let n = c.spec_moved(scan_offset(steps - 1)).unwrap();
            if q != n {
                if front {
                    assert(before[k - 1] == q);
                } else {
                    assert(before[k] == q);
                }
                lemma_neighbors_queued_are_shown(
                    queue,
                    t,
                    c,
                    (steps - 1) as nat,
                    front,
                    q,
                );
            }
        }
    }
}

/// A chunk enters the list of what to mesh only when it and the 26 chunks
/// around it are all loaded: whatever the list holds when a tick comes to
/// handing out was in the list before, or has all its neighbours.
pub proof fn lemma_queued_are_complete(
    queue: Seq<IVec3>,
    t: TerrainView,
    changes: TerrainChanges,
    q: IVec3,
)
    requires
        queue_before_dispatch(queue, t, changes).contains(q),
    ensures
        queue.contains(q) || t.neighbors_complete(q),
{
    let modified = with_modified(queue, t, changes.modified_chunks@);
    lemma_loaded_queued_are_complete(modified, t, changes.loaded_chunks@, q);
    if modified.contains(q) {
        lemma_modified_queued_are_complete(queue, t, changes.modified_chunks@, q);
    }
}

/// What loaded chunks add to the list can be shown: a chunk that is empty
/// or lacks a neighbour is not queued because chunks were loaded.
pub proof fn lemma_loaded_queued_are_complete(
    queue: Seq<IVec3>,
    t: TerrainView,
    loaded: Seq<IVec3>,
    q: IVec3,
)
    requires
        with_loaded(queue, t, loaded).contains(q),
    ensures
        queue.contains(q) || shown(t, q),
    decreases loaded.len(),
{
    if loaded.len() > 0 {
        let before = with_loaded(queue, t, loaded.drop_last());
        let c = loaded.last();
        let start = if shown(t, c) {
            before.push(c)
        } else {
            before
        };
        lemma_neighbors_queued_are_shown(start, t, c, 27, false, q);
        if start.contains(q) && !shown(t, q) {
            let k = choose|k: int| 0 <= k < start.len() && start[k] == q;
            assert(before[k] == q);
            lemma_loaded_queued_are_complete(queue, t, loaded.drop_last(), q);
        }
    }
}

/// What modified chunks add to the list has all its neighbours.
pub proof fn lemma_modified_queued_are_complete(
    queue: Seq<IVec3>,
    t: TerrainView,
    modified: Seq<(IVec3, BlockChanges)>,
    q: IVec3,
)
    requires
        with_modified(queue, t, modified).contains(q),
    ensures
        queue.contains(q) || t.neighbors_complete(q),
    decreases modified.len(),
{
    if modified.len() > 0 {
        let before = with_modified(queue, t, modified.drop_last());
        let c = modified.last().0;
        let start = if t.neighbors_complete(c) {
            seq![c] + before
        } else {
            before
        };
        lemma_neighbors_queued_are_shown(start, t, c, 27, true, q);
        if start.contains(q) && !t.neighbors_complete(q) {
            let k = choose|k: int| 0 <= k < start.len() && start[k] == q;
            if t.neighbors_complete(c) {
                assert(before[k - 1] == q);
            } else {
                assert(before[k] == q);
            }
            lemma_modified_queued_are_complete(queue, t, modified.drop_last(), q);
        }
    }
}

/// Looking at the neighbourhood of a chunk takes nothing out of the list.
pub proof fn lemma_neighbors_keep_queued(
    queue: Seq<IVec3>,
    t: TerrainView,
    c: IVec3,
    steps: nat,
    front: bool,
    q: IVec3,
)
    requires
        queue.contains(q),
    ensures
        with_neighbors(queue, t, c, steps, front).contains(q),
    decreases steps,
{
    if steps > 0 {
        lemma_neighbors_keep_queued(queue, t, c, (steps - 1) as nat, front, q);
        let before = with_neighbors(queue, t, c, (steps - 1) as nat, front);
        let now = with_neighbors(queue, t, c, steps, front);
        let k = choose|k: int| 0 <= k < before.len() && before[k] == q;
        if now != before {
            if front {
                assert(now[k + 1] == q);
            } else {
                assert(now[k] == q);
            }
        }
    }
}

/// A loaded chunk that can be shown is in the list when the tick comes to
/// handing out, and what was in the list before is still there.
pub proof fn lemma_loaded_are_queued(
    queue: Seq<IVec3>,
    t: TerrainView,
    loaded: Seq<IVec3>,
    q: IVec3,
)
    requires
        queue.contains(q) || (loaded.contains(q) && shown(t, q)),
    ensures
        with_loaded(queue, t, loaded).contains(q),
    decreases loaded.len(),
{
    if loaded.len() == 0 {
    } else {
        let before = with_loaded(queue, t, loaded.drop_last());
        let c = loaded.last();
        let start = if shown(t, c) {
            before.push(c)
        } else {
            before
        };
        if queue.contains(q) || (loaded.drop_last().contains(q) && shown(t, q)) {
            lemma_loaded_are_queued(queue, t, loaded.drop_last(), q);
            let k = choose|k: int| 0 <= k < before.len() && before[k] == q;
            assert(start[k] == q);
        } else {
            let k = choose|k: int| 0 <= k < loaded.len() && loaded[k] == q;
            if k < loaded.len() - 1 {
                assert(loaded.drop_last()[k] == q);
            }
            assert(c == q);
            assert(start[before.len() as int] == q);
        }
        lemma_neighbors_keep_queued(start, t, c, 27, false, q);
    }
}

/// What waits in the list is handed out or waits on: handing out loses
/// nothing.
pub proof fn lemma_dispatch_loses_nothing(queue: Seq<IVec3>, t: TerrainView, count: nat, q: IVec3)
    requires
        queue.contains(q),
    ensures
        dispatched(queue, t, count).contains(q) || dispatch_queue(queue, t, count).contains(q),
    decreases count,
{
    if count > 0 {
        lemma_dispatch_loses_nothing(queue, t, (count - 1) as nat, q);
        let before = dispatch_queue(queue, t, (count - 1) as nat);
        let jobs_before = dispatched(queue, t, (count - 1) as nat);
        let after = dispatch_queue(queue, t, count);
        let jobs = dispatched(queue, t, count);
        if jobs_before.contains(q) {
            let k = choose|k: int| 0 <= k < jobs_before.len() && jobs_before[k] == q;
            assert(jobs[k] == q);
        } else {
            let k = choose|k: int| 0 <= k < before.len() && before[k] == q;
            if k == 0 {
                if t.neighbors_complete(before.first()) {
                    assert(jobs[jobs_before.len() as int] == q);
                } else {
                    assert(after[before.len() - 1] == q);
                }
            } else {
                assert(after[k - 1] == q);
            }
        }
    }
}

/// A chunk that was loaded and can be shown is meshed: by the end of the
/// tick that is told of it, a job for it was handed out or it waits in the
/// list, however far from the observer it lies.
pub proof fn lemma_loaded_chunk_is_meshed<H>(
    store: MeshesView<H>,
    t: TerrainView,
    changes: TerrainChanges,
    player: IVec3,
    c: IVec3,
)
    requires
        changes.loaded_chunks@.contains(c),
        shown(t, c),
    ensures
        jobs_of_tick(store, t, changes, player).contains(c) || store.after_tick(
            t,
            changes,
            player,
        ).meshes_todo.contains(c),
{
    let cleared = (MeshesView { player_chunk: player, ..store }).without(changes.unloaded_chunks@);
    let modified = with_modified(cleared.meshes_todo, t, changes.modified_chunks@);
    lemma_loaded_are_queued(modified, t, changes.loaded_chunks@, c);
    lemma_dispatch_loses_nothing(
        queue_before_dispatch(cleared.meshes_todo, t, changes),
        t,
        MESHES_PER_TICK as nat,
        c,
    );
}

/// After a tick the store has no mesh of a chunk that was unloaded, and a
/// tick puts no mesh into the store.
pub proof fn lemma_tick_forgets_unloaded<H>(
    store: MeshesView<H>,
    t: TerrainView,
    changes: TerrainChanges,
    player: IVec3,
    i: int,
)
    requires
        0 <= i < changes.unloaded_chunks@.len(),
    ensures
        !store.after_tick(t, changes, player).meshed.contains_key(changes.unloaded_chunks@[i]),
        store.after_tick(t, changes, player).meshed.dom().subset_of(store.meshed.dom()),
{
    lemma_without_forgets(
        MeshesView { player_chunk: player, ..store },
        changes.unloaded_chunks@,
        i,
    );
}

/// Whether nothing happened in the terrain.
pub open spec fn no_changes(changes: TerrainChanges) -> bool {
    &&& changes.loaded_chunks@.len() == 0
    &&& changes.unloaded_chunks@.len() == 0
    &&& changes.modified_chunks@.len() == 0
}

/// Nothing is handed out from an empty list, which stays empty.
pub proof fn lemma_dispatch_empty(t: TerrainView, count: nat)
    ensures
        dispatch_queue(Seq::empty(), t, count) == Seq::<IVec3>::empty(),
        dispatched(Seq::empty(), t, count) == Seq::<IVec3>::empty(),
    decreases count,
{
    if count > 0 {
        lemma_dispatch_empty(t, (count - 1) as nat);
    }
}

/// What is handed out was waiting in the list, and so was what is left in
/// the list: handing out brings nothing new.
pub proof fn lemma_dispatched_were_waiting(queue: Seq<IVec3>, t: TerrainView, count: nat, c: IVec3)
    ensures
        dispatched(queue, t, count).contains(c) ==> queue.contains(c),
        dispatch_queue(queue, t, count).contains(c) ==> queue.contains(c),
    decreases count,
{
    if count > 0 {
        lemma_dispatched_were_waiting(queue, t, (count - 1) as nat, c);
        let before = dispatch_queue(queue, t, (count - 1) as nat);
        let jobs_before = dispatched(queue, t, (count - 1) as nat);
        let after = dispatch_queue(queue, t, count);
        let jobs = dispatched(queue, t, count);
        if jobs.contains(c) {
            let k = choose|k: int| 0 <= k < jobs.len() && jobs[k] == c;
            if k < jobs_before.len() {
                assert(jobs_before[k] == c);
            } else {
                assert(before[0] == c);
            }
        }
        if after.contains(c) {
            let k = choose|k: int| 0 <= k < after.len() && after[k] == c;
            if k < before.len() - 1 {
                assert(before[k + 1] == c);
            } else {
                assert(before[0] == c);
            }
        }
    }
}

/// A tick after which nothing happened in the terrain keeps every mesh, and
/// hands out from the list as it stood: every job is for a chunk that was
/// waiting, and no chunk is put into the list.
pub proof fn lemma_idle_tick_brings_nothing_new<H>(
    store: MeshesView<H>,
    t: TerrainView,
    changes: TerrainChanges,
    player: IVec3,
    c: IVec3,
)
    requires
        no_changes(changes),
    ensures
        store.after_tick(t, changes, player).meshed == store.meshed,
        jobs_of_tick(store, t, changes, player).contains(c) ==> store.meshes_todo.contains(c),
        store.after_tick(t, changes, player).meshes_todo.contains(c) ==> store.meshes_todo.contains(
            c,
        ),
{
    lemma_idle_tick_keeps_meshes(store, t, changes, player);
    lemma_dispatched_were_waiting(store.meshes_todo, t, MESHES_PER_TICK as nat, c);
}

/// A tick after which nothing happened in the terrain keeps every mesh, and
/// hands out from the list as it stood.
pub proof fn lemma_idle_tick_keeps_meshes<H>(
    store: MeshesView<H>,
    t: TerrainView,
    changes: TerrainChanges,
    player: IVec3,
)
    requires
        no_changes(changes),
    ensures
        store.after_tick(t, changes, player).meshed == store.meshed,
        store.after_tick(t, changes, player).player_chunk == player,
        store.after_tick(t, changes, player).meshes_todo == dispatch_queue(
            store.meshes_todo,
            t,
            MESHES_PER_TICK as nat,
        ),
        jobs_of_tick(store, t, changes, player) == dispatched(
            store.meshes_todo,
            t,
            MESHES_PER_TICK as nat,
        ),
{
}

/// A tick after which nothing happened in the terrain, with nothing waiting
/// to be meshed, changes nothing but the observer's chunk and hands out no
/// job.
pub proof fn lemma_idle_tick<H>(
    store: MeshesView<H>,
    t: TerrainView,
    changes: TerrainChanges,
    player: IVec3,
)
    requires
        no_changes(changes),
        store.meshes_todo.len() == 0,
    ensures
        store.after_tick(t, changes, player) == (MeshesView { player_chunk: player, ..store }),
        jobs_of_tick(store, t, changes, player).len() == 0,
{
    lemma_idle_tick_keeps_meshes(store, t, changes, player);
    assert(store.meshes_todo =~= Seq::empty());
    lemma_dispatch_empty(t, MESHES_PER_TICK as nat);
}

/// Two such ticks in a row, with the observer in the same chunk, leave the
/// store as one of them does, and neither hands out a job.
pub proof fn lemma_idle_tick_twice<H>(
    store: MeshesView<H>,
    t1: TerrainView,
    t2: TerrainView,
    changes1: TerrainChanges,
    changes2: TerrainChanges,
    player: IVec3,
)
    requires
        no_changes(changes1),
        no_changes(changes2),
        store.meshes_todo.len() == 0,
    ensures
        store.after_tick(t1, changes1, player).after_tick(t2, changes2, player)
            == store.after_tick(t1, changes1, player),
        jobs_of_tick(store, t1, changes1, player).len() == 0,
        jobs_of_tick(store.after_tick(t1, changes1, player), t2, changes2, player).len() == 0,
{
    lemma_idle_tick(store, t1, changes1, player);
    lemma_idle_tick(store.after_tick(t1, changes1, player), t2, changes2, player);
}

} // verus!
