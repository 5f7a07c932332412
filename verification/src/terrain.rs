//! The terrain store: the chunks that are loaded, and the decisions what to
//! load and what to unload as the observer moves.
//!
//! The store does no work outside of itself. A tick takes the chunks that
//! were generated since the last one and hands out the coordinates to
//! generate next; whoever drives the store generates them.

use vstd::prelude::*;
use vstd::arithmetic::div_mod::lemma_fundamental_div_mod_converse;
use crate::block::BlockType;
use crate::chunk::{changes_in_chunk, Chunk, ChunkData, CHUNK_VOLUME};
use crate::coords::{is_not, list_contains, list_remove, reversed, IVec3, UVec3};
use crate::generator::ChunkGenResponse;
use crate::table::ChunkTable;

verus! {

/// How far from the observer chunks are shown, in chunks along each axis,
/// unless a store is made for another distance. Chunks are loaded one chunk
/// further, so that every chunk that is shown has all its neighbours.
pub const RENDER_DISTANCE: i32 = 8;

/// The most chunks that one tick unloads.
pub const UNLOADS_PER_TICK: usize = 10;

/// The blocks to put into one chunk, each with its position in the chunk.
pub type BlockChanges = Vec<(UVec3, BlockType)>;

/// What changed in the terrain: the chunks that came, the chunks that went,
/// and the chunks in which blocks were replaced. The same record describes
/// the blocks that are to be replaced in the next tick.
///
/// The batches of replaced blocks are a list, not a table keyed by
/// coordinate. The mesh store queues the chunks of the batches in front of
/// its list, one before the other, so the order in which it comes by them
/// decides the order of the jobs; the order of a list is the order in which
/// the batches were noted, where a table could be walked in any order.
/// `add_edit` keeps one batch for each chunk, and a tick hands the batches
/// on as it got them (`one_batch_each`); several batches for one chunk are
/// put into it one after the other.
#[derive(Debug)]
pub struct TerrainChanges {
    pub loaded_chunks: Vec<IVec3>,
    pub unloaded_chunks: Vec<IVec3>,
    pub modified_chunks: Vec<(IVec3, BlockChanges)>,
}

/// Whether a list of batches holds one batch at most for each chunk.
pub open spec fn one_batch_each(edits: Seq<(IVec3, BlockChanges)>) -> bool {
    forall|i: int, j: int|
        0 <= i < j < edits.len() ==> (#[trigger] edits[i]).0 != (#[trigger] edits[j]).0
}

/// The place of the first batch for the chunk at `p`, or the length of the
/// list where there is none.
pub open spec fn batch_index(edits: Seq<(IVec3, BlockChanges)>, p: IVec3) -> int
    decreases edits.len(),
{
    if edits.len() == 0 {
        0
    } else if edits.first().0 == p {
        0
    } else {
        1 + batch_index(edits.drop_first(), p)
    }
}

impl TerrainChanges {
    /// A record of nothing.
    pub fn new() -> (changes: Self)
        ensures
            changes.loaded_chunks@.len() == 0,
            changes.unloaded_chunks@.len() == 0,
            changes.modified_chunks@.len() == 0,
    {
        TerrainChanges {
            loaded_chunks: Vec::new(),
            unloaded_chunks: Vec::new(),
            modified_chunks: Vec::new(),
        }
    }

    /// Notes a block to put into the chunk at `chunk_pos`: at the end of the
    /// first batch for that chunk, or in a new batch at the end of the list
    /// where there is none.
    pub fn add_edit(&mut self, chunk_pos: IVec3, block_pos: UVec3, block: BlockType)
        ensures
            final(self).loaded_chunks == old(self).loaded_chunks,
            final(self).unloaded_chunks == old(self).unloaded_chunks,
            ({
                let before = old(self).modified_chunks@;
                let after = final(self).modified_chunks@;
                let i = batch_index(before, chunk_pos);
                &&& 0 <= i <= before.len()
                &&& after.len() == (if i < before.len() {
                    before.len()
                } else {
                    before.len() + 1
                })
                &&& forall|j: int| 0 <= j < before.len() && j != i ==> after[j] == before[j]
                &&& after[i].0 == chunk_pos
                &&& after[i].1@ == (if i < before.len() {
                    before[i].1@
                } else {
                    Seq::empty()
                }).push((block_pos, block))
            }),
            one_batch_each(old(self).modified_chunks@) ==> one_batch_each(
                final(self).modified_chunks@,
            ),
    {
        let ghost before = self.modified_chunks@;
        let mut i: usize = 0;
        proof {
            assert(before.skip(0) =~= before);
        }
        while i < self.modified_chunks.len()
            invariant
                i <= self.modified_chunks.len(),
                self.modified_chunks@ == before,
                before == old(self).modified_chunks@,
                self.loaded_chunks == old(self).loaded_chunks,
                self.unloaded_chunks == old(self).unloaded_chunks,
                batch_index(before, chunk_pos) == i + batch_index(before.skip(i as int), chunk_pos),
                forall|j: int| 0 <= j < i ==> (#[trigger] before[j]).0 != chunk_pos,
            decreases self.modified_chunks.len() - i,
        {
            proof {
                assert(before.skip(i as int).drop_first() =~= before.skip(i + 1));
                assert(before.skip(i as int).first() == before[i as int]);
            }
            if self.modified_chunks[i].0 == chunk_pos {
                let (c, mut batch) = self.modified_chunks.remove(i);
                batch.push((block_pos, block));
                self.modified_chunks.insert(i, (c, batch));
                proof {
                    let after = self.modified_chunks@;
                    assert(batch_index(before, chunk_pos) == i);
                    assert(after.len() == before.len());
                    assert forall|j: int| 0 <= j < before.len() && j != i implies after[j]
                        == before[j] by {}
                    assert forall|j: int| 0 <= j < before.len() implies (#[trigger] after[j]).0
                        == before[j].0 by {
                        if j != i {
                            assert(after[j] == before[j]);
                        }
                    }
                    if one_batch_each(before) {
                        assert forall|j: int, k: int| 0 <= j < k < after.len() implies (
                        #[trigger] after[j]).0 != (#[trigger] after[k]).0 by {
                            assert(before[j].0 != before[k].0);
                        }
                    }
                }
                return ;
            }
            i += 1;
        }
        proof {
            assert(before.skip(i as int).len() == 0);
        }
        let mut batch: BlockChanges = Vec::new();
        batch.push((block_pos, block));
        self.modified_chunks.push((chunk_pos, batch));
        proof {
            let after = self.modified_chunks@;
            if one_batch_each(before) {
                assert forall|j: int, k: int| 0 <= j < k < after.len() implies (#[trigger] after[j]).0
                    != (#[trigger] after[k]).0 by {
                    assert(after[j] == before[j]);
                    if k < before.len() {
                        assert(after[k] == before[k]);
                    }
                }
            }
        }
    }
}

/// A list of batches from which batches were taken out holds one batch at
/// most for each chunk if the whole list does.
pub proof fn lemma_filter_keeps_one_batch_each(
    edits: Seq<(IVec3, BlockChanges)>,
    keep: spec_fn((IVec3, BlockChanges)) -> bool,
)
    requires
        one_batch_each(edits),
    ensures
        one_batch_each(edits.filter(keep)),
    decreases edits.len(),
{
    reveal(Seq::filter);
    if edits.len() > 0 {
        let rest = edits.drop_last();
        assert forall|i: int, j: int| 0 <= i < j < rest.len() implies (#[trigger] rest[i]).0 != (
        #[trigger] rest[j]).0 by {
            assert(edits[i].0 != edits[j].0);
        }
        lemma_filter_keeps_one_batch_each(rest, keep);
        let kept = rest.filter(keep);
        let all = edits.filter(keep);
        if keep(edits.last()) {
            assert forall|i: int, j: int| 0 <= i < j < all.len() implies (#[trigger] all[i]).0 != (
            #[trigger] all[j]).0 by {
                if j < kept.len() {
                    assert(kept[i].0 != kept[j].0);
                } else {
                    assert(kept[i] == all[i]);
                    assert(kept.contains(kept[i]));
                    rest.lemma_filter_contains_rev(keep, kept[i]);
                    let k = choose|k: int| 0 <= k < rest.len() && rest[k] == kept[i];
                    assert(edits[k].0 != edits[edits.len() - 1].0);
                }
            }
        }
    }
}

/// The chunk that holds a block of the world.
pub open spec fn spec_chunk_of(w: IVec3) -> IVec3 {
    IVec3 { x: (w.x / 32) as i32, y: (w.y / 32) as i32, z: (w.z / 32) as i32 }
}

/// The position of a block of the world inside its chunk.
pub open spec fn spec_local_of(w: IVec3) -> UVec3 {
    UVec3 { x: (w.x % 32) as usize, y: (w.y % 32) as usize, z: (w.z % 32) as usize }
}

/// Splits a world coordinate into the coordinate of the chunk and the
/// coordinate inside the chunk.
fn split_coordinate(v: i32) -> (r: (i32, usize))
    ensures
        r.0 == v / 32,
        r.1 == v % 32,
        r.1 < 32,
{
    if v >= 0 {
        (v / 32, (v % 32) as usize)
    } else {
        let below: i32 = -(v + 1);
        (-(below / 32) - 1, (31 - below % 32) as usize)
    }
}

/// The chunk that holds a block of the world.
pub fn chunk_of(w: IVec3) -> (c: IVec3)
    ensures
        c == spec_chunk_of(w),
{
    IVec3 { x: split_coordinate(w.x).0, y: split_coordinate(w.y).0, z: split_coordinate(w.z).0 }
}

/// The position of a block of the world inside its chunk.
pub fn local_of(w: IVec3) -> (b: UVec3)
    ensures
        b == spec_local_of(w),
        b.in_chunk(),
{
    UVec3 { x: split_coordinate(w.x).1, y: split_coordinate(w.y).1, z: split_coordinate(w.z).1 }
}

/// The terrain store as contracts see it.
pub struct TerrainView {
    /// How far from the observer chunks are shown.
    pub render_distance: int,
    /// The chunk that the observer was in at the last scan.
    pub player_chunk: IVec3,
    /// The chunks that are loaded.
    pub chunks: Map<IVec3, Chunk>,
    /// The coordinates that wait to be handed out for generation.
    pub load_todo: Seq<IVec3>,
    /// The coordinates that were handed out and have not come back.
    pub loading: Seq<IVec3>,
    /// The coordinates that wait to be unloaded; the last one goes first.
    pub unload_todo: Seq<IVec3>,
}

impl TerrainView {
    /// Whether the chunk at a coordinate is loaded.
    pub open spec fn resident(self, p: IVec3) -> bool {
        self.chunks.contains_key(p)
    }

    /// Whether a coordinate is loaded, waits to be generated or is being
    /// generated.
    pub open spec fn known(self, p: IVec3) -> bool {
        self.chunks.contains_key(p) || self.load_todo.contains(p) || self.loading.contains(p)
    }

    /// Whether the chunk at a coordinate and the 26 chunks around it are all
    /// loaded.
    pub open spec fn neighbors_complete(self, p: IVec3) -> bool {
        forall|n: int|
            0 <= n < 27 ==> match #[trigger] p.spec_neighbor(n) {
                Some(q) => self.chunks.contains_key(q),
                None => false,
            }
    }
}

/// Whether a list holds a coordinate at place `n` or later.
pub open spec fn holds_from(s: Seq<IVec3>, n: int, p: IVec3) -> bool {
    exists|i: int| n <= i < s.len() && #[trigger] s[i] == p
}

/// The offset of `p` from `center`.
pub open spec fn offset_from(center: IVec3, p: IVec3) -> (int, int, int) {
    (p.x - center.x, p.y - center.y, p.z - center.z)
}

/// The stage at which a scan for chunks to load comes by an offset. The scan
/// goes outwards shell by shell; of a shell at distance `r` it takes first
/// the side where `y` is `-r`, then what is left of the side where `x` is
/// `-r`, then what is left of the side where `z` is `-r`, and then the three
/// sides opposite in the same order.
#[verifier::opaque]
pub open spec fn scan_stage(d: (int, int, int)) -> int {
    let r = IVec3 { x: 0, y: 0, z: 0 }.spec_distance(
        IVec3 { x: d.0 as i32, y: d.1 as i32, z: d.2 as i32 },
    );
    6 * r + (if d.1 == -r {
        0int
    } else if d.1 == r {
        3int
    } else if d.0 == -r {
        1int
    } else if d.0 == r {
        4int
    } else if d.2 == -r {
        2int
    } else {
        5int
    })
}

/// The place of an offset in the order of a scan for chunks to load, for
/// offsets of at most 511 along each axis: by stage, and within a stage by
/// `y`, then by `x`, then by `z`. Offsets with a lower rank come first.
pub open spec fn scan_rank(d: (int, int, int)) -> int {
    scan_cursor(scan_stage(d), d.1, d.0, d.2)
}

/// The rank of the offset `(x, y, z)` if its stage is `stage`.
pub open spec fn scan_cursor(stage: int, y: int, x: int, z: int) -> int {
    ((stage * 1024 + (y + 512)) * 1024 + (x + 512)) * 1024 + (z + 512)
}

/// The rank of an offset of at most 512 along each axis lies in the range
/// of its stage.
pub proof fn lemma_scan_cursor(stage: int, y: int, x: int, z: int)
    requires
        -512 <= y < 512,
        -512 <= x < 512,
        -512 <= z < 512,
    ensures
        stage * 0x4000_0000 <= scan_cursor(stage, y, x, z) < (stage + 1) * 0x4000_0000,
{
}

/// The rank of an offset of at most 512 along each axis tells its stage and
/// the offset.
pub proof fn lemma_scan_cursor_tells(
    stage1: int,
    y1: int,
    x1: int,
    z1: int,
    stage2: int,
    y2: int,
    x2: int,
    z2: int,
)
    requires
        -512 <= y1 < 512 && -512 <= x1 < 512 && -512 <= z1 < 512,
        -512 <= y2 < 512 && -512 <= x2 < 512 && -512 <= z2 < 512,
        scan_cursor(stage1, y1, x1, z1) == scan_cursor(stage2, y2, x2, z2),
    ensures
        stage1 == stage2,
        y1 == y2,
        x1 == x2,
        z1 == z2,
{
    let k = scan_cursor(stage1, y1, x1, z1);
    let h1 = (stage1 * 1024 + (y1 + 512)) * 1024 + (x1 + 512);
    let h2 = (stage2 * 1024 + (y2 + 512)) * 1024 + (x2 + 512);
    lemma_fundamental_div_mod_converse(k, 1024, h1, z1 + 512);
    lemma_fundamental_div_mod_converse(k, 1024, h2, z2 + 512);
    let g1 = stage1 * 1024 + (y1 + 512);
    let g2 = stage2 * 1024 + (y2 + 512);
    lemma_fundamental_div_mod_converse(h1, 1024, g1, x1 + 512);
    lemma_fundamental_div_mod_converse(h1, 1024, g2, x2 + 512);
    lemma_fundamental_div_mod_converse(g1, 1024, stage1, y1 + 512);
    lemma_fundamental_div_mod_converse(g1, 1024, stage2, y2 + 512);
}

/// The stage of an offset is one of the six of its shell.
pub proof fn lemma_scan_stage(d: IVec3)
    ensures
        6 * d.spec_distance(IVec3 { x: 0, y: 0, z: 0 }) <= scan_stage(
            (d.x as int, d.y as int, d.z as int),
        ) <= 6 * d.spec_distance(IVec3 { x: 0, y: 0, z: 0 }) + 5,
{
    reveal(scan_stage);
    let o = IVec3 { x: 0, y: 0, z: 0 };
    assert(o.spec_distance(d) == d.spec_distance(o));
}

/// A scan for chunks to load goes outwards: of two offsets of at most 511
/// along each axis, the one that is nearer has the lower rank.
pub proof fn lemma_scan_goes_outwards(a: IVec3, b: IVec3)
    requires
        a.spec_distance(IVec3 { x: 0, y: 0, z: 0 }) < b.spec_distance(IVec3 { x: 0, y: 0, z: 0 })
            <= 511,
    ensures
        scan_rank((a.x as int, a.y as int, a.z as int)) < scan_rank(
            (b.x as int, b.y as int, b.z as int),
        ),
{
    let sa = scan_stage((a.x as int, a.y as int, a.z as int));
    let sb = scan_stage((b.x as int, b.y as int, b.z as int));
    lemma_scan_stage(a);
    lemma_scan_stage(b);
    lemma_scan_cursor(sa, a.y as int, a.x as int, a.z as int);
    lemma_scan_cursor(sb, b.y as int, b.x as int, b.z as int);
    assert((sa + 1) * 0x4000_0000 <= sb * 0x4000_0000);
}

/// No two offsets of at most 511 along each axis have the same rank: the
/// ranks put them in one order.
pub proof fn lemma_scan_rank_tells(a: IVec3, b: IVec3)
    requires
        a.spec_distance(IVec3 { x: 0, y: 0, z: 0 }) <= 511,
        b.spec_distance(IVec3 { x: 0, y: 0, z: 0 }) <= 511,
        scan_rank((a.x as int, a.y as int, a.z as int)) == scan_rank(
            (b.x as int, b.y as int, b.z as int),
        ),
    ensures
        a == b,
{
    lemma_scan_cursor_tells(
        scan_stage((a.x as int, a.y as int, a.z as int)),
        a.y as int,
        a.x as int,
        a.z as int,
        scan_stage((b.x as int, b.y as int, b.z as int)),
        b.y as int,
        b.x as int,
        b.z as int,
    );
}

/// What a scan for chunks to load does around `center`: it appends to the
/// list of what to load every coordinate at most one more than the render
/// distance away that is not known yet, each once, in the order of their
/// ranks, and leaves everything else as it was.
pub open spec fn load_scan(before: TerrainView, after: TerrainView, center: IVec3) -> bool {
    let n = before.load_todo.len() as int;
    let s = after.load_todo;
    &&& after == (TerrainView { load_todo: s, ..before })
    &&& n <= s.len()
    &&& forall|i: int| 0 <= i < n ==> #[trigger] s[i] == before.load_todo[i]
    &&& forall|p: IVec3| #[trigger]
        holds_from(s, n, p) <==> p.spec_distance(center) <= before.render_distance + 1
            && !before.known(p)
    &&& forall|i: int, j: int|
        n <= i < j < s.len() ==> scan_rank(offset_from(center, #[trigger] s[i])) < scan_rank(
            offset_from(center, #[trigger] s[j]),
        )
}

/// What a scan for chunks to unload does around `center`: it appends to the
/// list of what to unload every loaded coordinate more than one more than
/// the render distance away, each once, and leaves everything else as it
/// was.
pub open spec fn unload_scan(before: TerrainView, after: TerrainView, center: IVec3) -> bool {
    let n = before.unload_todo.len() as int;
    let s = after.unload_todo;
    &&& after == (TerrainView { unload_todo: s, ..before })
    &&& n <= s.len()
    &&& forall|i: int| 0 <= i < n ==> #[trigger] s[i] == before.unload_todo[i]
    &&& forall|i: int, j: int| n <= i < j < s.len() ==> #[trigger] s[i] != #[trigger] s[j]
    &&& forall|p: IVec3| #[trigger]
        holds_from(s, n, p) <==> before.chunks.contains_key(p) && p.spec_distance(center)
            > before.render_distance + 1
}

/// The coordinates whose offset from `center` lies in the box from `lo` to
/// `hi`.
pub open spec fn box_around(center: IVec3, lo: (int, int, int), hi: (int, int, int)) -> Set<IVec3> {
    Set::new(
        |p: IVec3|
            lo.0 <= p.x - center.x <= hi.0 && lo.1 <= p.y - center.y <= hi.1 && lo.2 <= p.z
                - center.z <= hi.2,
    )
}

/// The coordinates at most `r` away from `center`.
pub open spec fn ball(center: IVec3, r: int) -> Set<IVec3> {
    Set::new(|p: IVec3| p.spec_distance(center) <= r)
}

/// The state of a scan for chunks to load that has come by the coordinates
/// in `seen`, all of them of a rank below `cursor`.
spec fn load_scanning(
    base: TerrainView,
    cur: TerrainView,
    center: IVec3,
    seen: Set<IVec3>,
    cursor: int,
) -> bool {
    let n = base.load_todo.len() as int;
    let s = cur.load_todo;
    &&& cur == (TerrainView { load_todo: s, ..base })
    &&& n <= s.len()
    &&& forall|i: int| 0 <= i < n ==> #[trigger] s[i] == base.load_todo[i]
    &&& forall|i: int|
        n <= i < s.len() ==> seen.contains(#[trigger] s[i]) && !base.known(s[i]) && scan_rank(
            offset_from(center, s[i]),
        ) < cursor
    &&& forall|p: IVec3| seen.contains(p) && !base.known(p) ==> #[trigger] holds_from(s, n, p)
    &&& forall|i: int, j: int|
        n <= i < j < s.len() ==> scan_rank(offset_from(center, #[trigger] s[i])) < scan_rank(
            offset_from(center, #[trigger] s[j]),
        )
}

/// A scan that comes by one more coordinate, of a rank that is not below
/// the cursor, and appends it if it is not known, is a scan still.
proof fn lemma_load_scan_step(
    base: TerrainView,
    cur: TerrainView,
    next: TerrainView,
    center: IVec3,
    seen: Set<IVec3>,
    cursor: int,
    p: IVec3,
)
    requires
        load_scanning(base, cur, center, seen, cursor),
        cursor <= scan_rank(offset_from(center, p)),
        next == (TerrainView {
            load_todo: if cur.known(p) {
                cur.load_todo
            } else {
                cur.load_todo.push(p)
            },
            ..cur
        }),
    ensures
        load_scanning(
            base,
            next,
            center,
            seen.insert(p),
            scan_rank(offset_from(center, p)) + 1,
        ),
{
    let n = base.load_todo.len() as int;
    let s = cur.load_todo;
    let t = next.load_todo;
    assert forall|q: IVec3| base.known(q) implies cur.known(q) by {
        if base.load_todo.contains(q) {
            let i = choose|i: int| 0 <= i < base.load_todo.len() && base.load_todo[i] == q;
            assert(s[i] == q);
        }
    }
    if cur.known(p) {
        assert forall|q: IVec3| seen.insert(p).contains(q) && !base.known(q) implies #[trigger] holds_from(
            t,
            n,
            q,
        ) by {
            if q == p && !seen.contains(p) {
                assert(s.contains(p));
                let i = choose|i: int| 0 <= i < s.len() && s[i] == p;
                if i < n {
                    assert(base.load_todo[i] == p);
                    assert(base.load_todo.contains(p));
                }
                assert(n <= i < s.len() && s[i] == p);
            } else {
                assert(holds_from(s, n, q));
            }
        }
    } else {
        assert forall|q: IVec3| seen.insert(p).contains(q) && !base.known(q) implies #[trigger] holds_from(
            t,
            n,
            q,
        ) by {
            if q == p {
                assert(t[s.len() as int] == p);
            } else {
                assert(holds_from(s, n, q));
                let i = choose|i: int| n <= i < s.len() && s[i] == q;
                assert(t[i] == q);
            }
        }
        assert forall|i: int| 0 <= i < n implies #[trigger] t[i] == base.load_todo[i] by {
            assert(s[i] == base.load_todo[i]);
        }
        assert forall|i: int|
            n <= i < t.len() implies seen.insert(p).contains(#[trigger] t[i]) && !base.known(t[i])
            && scan_rank(offset_from(center, t[i])) < scan_rank(offset_from(center, p)) + 1 by {
            if i < s.len() {
                assert(s[i] == t[i]);
            }
        }
        assert forall|i: int, j: int| n <= i < j < t.len() implies scan_rank(
            offset_from(center, #[trigger] t[i]),
        ) < scan_rank(offset_from(center, #[trigger] t[j])) by {
            assert(s[i] == t[i]);
            if j < s.len() {
                assert(s[j] == t[j]);
            }
        }
    }
}

/// A scan whose coordinates are of a rank below a cursor are of a rank below
/// any greater one.
proof fn lemma_load_scan_cursor(
    base: TerrainView,
    cur: TerrainView,
    center: IVec3,
    seen: Set<IVec3>,
    cursor: int,
    more: int,
)
    requires
        load_scanning(base, cur, center, seen, cursor),
        cursor <= more,
    ensures
        load_scanning(base, cur, center, seen, more),
{
}

/// The batch that puts air at every position of a chunk: it walks along `z`
/// first, then up along `y`, then along `x`.
pub open spec fn air_everywhere() -> Seq<(UVec3, BlockType)> {
    Seq::new(
        CHUNK_VOLUME as nat,
        |i: int|
            (
                UVec3 { x: (i / 1024) as usize, y: ((i / 32) % 32) as usize, z: (i % 32) as usize },
                BlockType::Air,
            ),
    )
}

/// The test that a batch of blocks to put is for a chunk of `chunks`.
pub open spec fn edit_of(chunks: Map<IVec3, Chunk>) -> spec_fn((IVec3, BlockChanges)) -> bool {
    |e: (IVec3, BlockChanges)| chunks.contains_key(e.0)
}

/// Whether every position in every batch lies inside a chunk.
pub open spec fn edits_in_chunk(edits: Seq<(IVec3, BlockChanges)>) -> bool {
    forall|i: int| 0 <= i < edits.len() ==> changes_in_chunk((#[trigger] edits[i]).1@)
}

/// The coordinate of a generated chunk.
pub open spec fn response_position() -> spec_fn(ChunkGenResponse) -> IVec3 {
    |r: ChunkGenResponse| r.position
}

impl TerrainView {
    /// The store after the batches of blocks were put into their chunks,
    /// one batch after the other. A batch for a chunk that is not loaded
    /// changes nothing.
    pub open spec fn with_edits(self, edits: Seq<(IVec3, BlockChanges)>) -> TerrainView
        decreases edits.len(),
    {
        if edits.len() == 0 {
            self
        } else {
            self.with_edits(edits.drop_last()).with_edit(edits.last().0, edits.last().1@)
        }
    }

    /// The store after one batch of blocks was put into the chunk at `p`.
    pub open spec fn with_edit(self, p: IVec3, changes: Seq<(UVec3, BlockType)>) -> TerrainView {
        if self.chunks.contains_key(p) {
            TerrainView { chunks: self.chunks.insert(p, self.chunks[p].spec_edited(changes)), ..self }
        } else {
            self
        }
    }

    /// Whether a tick scans for chunks to load and unload: when the observer
    /// has moved to another chunk, and when the store knows of no chunk.
    pub open spec fn needs_scan(self, player_pos: IVec3) -> bool {
        player_pos != self.player_chunk || (self.chunks.dom() == Set::<IVec3>::empty()
            && self.load_todo.len() == 0 && self.loading.len() == 0)
    }

    /// The store after the list of what to load was handed out.
    pub open spec fn with_dispatch(self) -> TerrainView {
        TerrainView { loading: self.loading + self.load_todo, load_todo: Seq::empty(), ..self }
    }

    /// The store after a generated chunk came in.
    pub open spec fn with_response(self, r: ChunkGenResponse) -> TerrainView {
        TerrainView {
            chunks: self.chunks.insert(r.position, r.data.spec_chunk()),
            loading: self.loading.filter(is_not(r.position)),
            ..self
        }
    }

    /// The store after generated chunks came in, one after the other.
    pub open spec fn with_loaded(self, responses: Seq<ChunkGenResponse>) -> TerrainView
        decreases responses.len(),
    {
        if responses.len() == 0 {
            self
        } else {
            self.with_loaded(responses.drop_last()).with_response(responses.last())
        }
    }

    /// The coordinates, among those of generated chunks that came in, at
    /// which a chunk was loaded already when the new one came.
    pub open spec fn overwritten(self, responses: Seq<ChunkGenResponse>) -> Seq<IVec3>
        decreases responses.len(),
    {
        if responses.len() == 0 {
            Seq::empty()
        } else {
            let before = self.overwritten(responses.drop_last());
            if self.with_loaded(responses.drop_last()).chunks.contains_key(
                responses.last().position,
            ) {
                before.push(responses.last().position)
            } else {
                before
            }
        }
    }

    /// The store after the last coordinate of the list of what to unload
    /// was unloaded, if there is one.
    pub open spec fn with_unload(self) -> TerrainView {
        if self.unload_todo.len() == 0 {
            self
        } else {
            TerrainView {
                chunks: self.chunks.remove(self.unload_todo.last()),
                load_todo: self.load_todo.filter(is_not(self.unload_todo.last())),
                unload_todo: self.unload_todo.drop_last(),
                ..self
            }
        }
    }

    /// The store after up to `count` coordinates were unloaded.
    pub open spec fn with_unloads(self, count: nat) -> TerrainView
        decreases count,
    {
        if count == 0 {
            self
        } else {
            self.with_unloads((count - 1) as nat).with_unload()
        }
    }

    /// The coordinates that unloading up to `count` of them unloads, in the
    /// order in which they go.
    pub open spec fn unloaded(self, count: nat) -> Seq<IVec3>
        decreases count,
    {
        if count == 0 {
            Seq::empty()
        } else {
            let before = self.with_unloads((count - 1) as nat);
            if before.unload_todo.len() == 0 {
                self.unloaded((count - 1) as nat)
            } else {
                self.unloaded((count - 1) as nat).push(before.unload_todo.last())
            }
        }
    }
}

/// What the scans of a tick do around the observer's chunk: a scan for
/// chunks to load, then one for chunks to unload, and the observer's chunk
/// is noted.
pub open spec fn scan(before: TerrainView, after: TerrainView, center: IVec3) -> bool {
    let between = TerrainView { load_todo: after.load_todo, ..before };
    &&& load_scan(before, between, center)
    &&& unload_scan(between, TerrainView { player_chunk: before.player_chunk, ..after }, center)
    &&& after.player_chunk == center
}

/// What a tick hands back.
#[derive(Debug)]
pub struct TerrainTick {
    /// What changed in the store.
    pub changes: TerrainChanges,
    /// The coordinates to generate chunks for.
    pub dispatched: Vec<IVec3>,
    /// The coordinates at which a generated chunk replaced a loaded one.
    /// There should be none.
    pub overwritten: Vec<IVec3>,
}

/// What a tick does. `scanned` is the store after the scans of the tick: the
/// order in which a scan lists the chunks to unload is not fixed.
pub open spec fn tick_result(
    before: TerrainView,
    player_pos: IVec3,
    edits: Seq<(IVec3, BlockChanges)>,
    completed: Seq<ChunkGenResponse>,
    scanned: TerrainView,
    after: TerrainView,
    tick: TerrainTick,
) -> bool {
    let edited = before.with_edits(edits);
    let loaded = scanned.with_dispatch().with_loaded(completed);
    &&& if edited.needs_scan(player_pos) {
        scan(edited, scanned, player_pos)
    } else {
        scanned == edited
    }
    &&& after == loaded.with_unloads(UNLOADS_PER_TICK as nat)
    &&& tick.dispatched@ == scanned.load_todo
    &&& tick.overwritten@ == scanned.with_dispatch().overwritten(completed)
    &&& tick.changes.modified_chunks@ == edits.filter(edit_of(before.chunks))
    &&& tick.changes.loaded_chunks@ == completed.map_values(response_position())
    &&& tick.changes.unloaded_chunks@ == loaded.unloaded(UNLOADS_PER_TICK as nat)
}

/// The chunks of the world that are loaded, with the lists of what to load
/// and unload next.
pub struct Terrain {
    render_distance: u8,
    player_chunk: IVec3,
    chunk_map: ChunkTable<ChunkData>,
    load_todo: Vec<IVec3>,
    loading: Vec<IVec3>,
    unload_todo: Vec<IVec3>,
}

impl View for Terrain {
    type V = TerrainView;

    closed spec fn view(&self) -> TerrainView {
        TerrainView {
            render_distance: self.render_distance as int,
            player_chunk: self.player_chunk,
            chunks: self.chunk_map@.map_values(|d: ChunkData| d.spec_chunk()),
            load_todo: self.load_todo@,
            loading: self.loading@,
            unload_todo: self.unload_todo@,
        }
    }
}

impl Terrain {
    /// A store without chunks, with the observer at the origin, that shows
    /// chunks up to `RENDER_DISTANCE` away.
    pub fn new() -> (terrain: Self)
        ensures
            terrain@ == (TerrainView {
                render_distance: RENDER_DISTANCE as int,
                player_chunk: IVec3 { x: 0, y: 0, z: 0 },
                chunks: Map::empty(),
                load_todo: Seq::empty(),
                loading: Seq::empty(),
                unload_todo: Seq::empty(),
            }),
    {
        Terrain::with_render_distance(RENDER_DISTANCE as u8)
    }

    /// A store without chunks, with the observer at the origin, that shows
    /// chunks up to `render_distance` away.
    pub fn with_render_distance(render_distance: u8) -> (terrain: Self)
        ensures
            terrain@ == (TerrainView {
                render_distance: render_distance as int,
                player_chunk: IVec3 { x: 0, y: 0, z: 0 },
                chunks: Map::empty(),
                load_todo: Seq::empty(),
                loading: Seq::empty(),
                unload_todo: Seq::empty(),
            }),
    {
        let terrain = Terrain {
            render_distance,
            player_chunk: IVec3 { x: 0, y: 0, z: 0 },
            chunk_map: ChunkTable::new(),
            load_todo: Vec::new(),
            loading: Vec::new(),
            unload_todo: Vec::new(),
        };
        assert(terrain@.chunks =~= Map::empty());
        assert(terrain@.load_todo =~= Seq::empty());
        terrain
    }

    /// The chunk at a coordinate, if it is loaded.
    pub fn get_chunk(&self, chunk_pos: IVec3) -> (r: Option<&ChunkData>)
        ensures
            r.is_some() == self@.chunks.contains_key(chunk_pos),
            r.is_some() ==> r.unwrap().spec_chunk() == self@.chunks[chunk_pos],
    {
        self.chunk_map.get(chunk_pos)
    }

    /// The block at a position of the world, with its position inside its
    /// chunk; `None` where the chunk is not loaded.
    pub fn get_block(&self, block_world_pos: IVec3) -> (r: Option<(UVec3, BlockType)>)
        ensures
            r == (if self@.chunks.contains_key(spec_chunk_of(block_world_pos)) {
                Some(
                    (
                        spec_local_of(block_world_pos),
                        self@.chunks[spec_chunk_of(block_world_pos)].spec_get_block(
                            spec_local_of(block_world_pos),
                        ),
                    ),
                )
            } else {
                None
            }),
    {
        let block_pos = local_of(block_world_pos);
        let chunk_pos = chunk_of(block_world_pos);
        if let Some(chunk_data) = self.get_chunk(chunk_pos) {
            Some((block_pos, chunk_data.chunk().get_block(block_pos)))
        } else {
            None
        }
    }

    /// How far from the observer chunks are shown.
    pub fn render_distance(&self) -> (d: u8)
        ensures
            d == self@.render_distance,
    {
        self.render_distance
    }

    /// The chunk that the observer was in at the last scan.
    pub fn player_chunk(&self) -> (p: IVec3)
        ensures
            p == self@.player_chunk,
    {
        self.player_chunk
    }

    /// The coordinates that wait to be handed out for generation.
    pub fn load_todo(&self) -> (list: &Vec<IVec3>)
        ensures
            list@ == self@.load_todo,
    {
        &self.load_todo
    }

    /// The coordinates that were handed out and have not come back.
    pub fn loading(&self) -> (list: &Vec<IVec3>)
        ensures
            list@ == self@.loading,
    {
        &self.loading
    }

    /// The coordinates that wait to be unloaded; the last one goes first.
    pub fn unload_todo(&self) -> (list: &Vec<IVec3>)
        ensures
            list@ == self@.unload_todo,
    {
        &self.unload_todo
    }

    /// The coordinates of the chunks that are loaded, each once, in no order
    /// that could be told beforehand.
    pub fn chunk_positions(&self) -> (list: Vec<IVec3>)
        ensures
            list@.no_duplicates(),
            forall|p: IVec3| list@.contains(p) <==> self@.chunks.contains_key(p),
    {
        self.chunk_map.keys()
    }

    /// Whether the block at a position of the world is loaded and not air.
    pub open spec fn solid_at(self, w: IVec3) -> bool {
        self@.chunks.contains_key(spec_chunk_of(w)) && self@.chunks[spec_chunk_of(
            w,
        )].spec_get_block(spec_local_of(w)) != BlockType::Air
    }

    /// What it takes to clear the chunk at `chunk_pos`: a batch that puts air
    /// at every position of the chunk, if the chunk is loaded and not empty,
    /// and nothing if it is not.
    pub fn carve(&self, chunk_pos: IVec3) -> (changes: TerrainChanges)
        ensures
            changes.loaded_chunks@.len() == 0,
            changes.unloaded_chunks@.len() == 0,
            edits_in_chunk(changes.modified_chunks@),
            one_batch_each(changes.modified_chunks@),
            if self@.chunks.contains_key(chunk_pos) && !self@.chunks[chunk_pos].all_air() {
                &&& changes.modified_chunks@.len() == 1
                &&& changes.modified_chunks@[0].0 == chunk_pos
                &&& changes.modified_chunks@[0].1@ == air_everywhere()
            } else {
                changes.modified_chunks@.len() == 0
            },
    {
        let mut changes = TerrainChanges::new();
        match self.get_chunk(chunk_pos) {
            Some(data) => {
                if !data.is_empty() {
                    let mut batch: BlockChanges = Vec::new();
                    let mut i: usize = 0;
                    while i < CHUNK_VOLUME
                        invariant
                            i <= CHUNK_VOLUME,
                            batch@ == air_everywhere().take(i as int),
                        decreases CHUNK_VOLUME - i,
                    {
                        let position = UVec3 { x: i / 1024, y: (i / 32) % 32, z: i % 32 };
                        batch.push((position, BlockType::Air));
                        proof {
                            assert(batch@ =~= air_everywhere().take(i + 1));
                        }
                        i += 1;
                    }
                    proof {
                        assert(batch@ =~= air_everywhere());
                    }
                    changes.modified_chunks.push((chunk_pos, batch));
                }
            },
            None => {},
        }
        changes
    }

    /// Goes along a list of positions of the world and stops at the first
    /// whose block is loaded and not air; gives the chunk of that block and
    /// its position in the chunk, or `None` where there is no such block.
    pub fn pick_block(&self, ray: &Vec<IVec3>) -> (hit: Option<(IVec3, UVec3)>)
        ensures
            match hit {
                Some((c, b)) => exists|i: int|
                    0 <= i < ray@.len() && self.solid_at(#[trigger] ray@[i]) && c == spec_chunk_of(
                        ray@[i],
                    ) && b == spec_local_of(ray@[i]) && forall|j: int|
                        0 <= j < i ==> !self.solid_at(#[trigger] ray@[j]),
                None => forall|j: int| 0 <= j < ray@.len() ==> !self.solid_at(#[trigger] ray@[j]),
            },
    {
        let mut i: usize = 0;
        while i < ray.len()
            invariant
                i <= ray.len(),
                forall|j: int| 0 <= j < i ==> !self.solid_at(#[trigger] ray@[j]),
            decreases ray.len() - i,
        {
            if let Some((block_pos, block)) = self.get_block(ray[i]) {
                if block != BlockType::Air {
                    return Some((chunk_of(ray[i]), block_pos));
                }
            }
            i += 1;
        }
        None
    }

    /// Whether the chunk at a coordinate and the 26 chunks around it are all
    /// loaded.
    pub fn check_neighbors(&self, chunk_pos: IVec3) -> (r: bool)
        ensures
            r == self@.neighbors_complete(chunk_pos),
    {
        let mut n: usize = 0;
        while n < 27
            invariant
                n <= 27,
                forall|k: int|
                    0 <= k < n ==> match #[trigger] chunk_pos.spec_neighbor(k) {
                        Some(q) => self@.chunks.contains_key(q),
                        None => false,
                    },
            decreases 27 - n,
        {
            match chunk_pos.neighbor(n) {
                Some(q) => {
                    if !self.chunk_map.contains_key(q) {
                        return false;
                    }
                },
                None => {
                    return false;
                },
            }
            n += 1;
        }
        true
    }

    /// Puts a chunk into the store. Says whether a chunk was there already,
    /// which then is replaced: that should not happen, and is for the caller
    /// to report.
    pub fn add_chunk(&mut self, chunk_pos: IVec3, chunk: ChunkData) -> (replaced: bool)
        ensures
            replaced == old(self)@.chunks.contains_key(chunk_pos),
            final(self)@ == (TerrainView {
                chunks: old(self)@.chunks.insert(chunk_pos, chunk.spec_chunk()),
                ..old(self)@
            }),
    {
        let before = self.chunk_map.insert(chunk_pos, chunk);
        assert(self@.chunks =~= old(self)@.chunks.insert(chunk_pos, chunk.spec_chunk()));
        before.is_some()
    }

    /// Takes a chunk out of the store, and its coordinate out of the list of
    /// what to load.
    pub fn remove_chunk(&mut self, chunk_pos: IVec3)
        ensures
            final(self)@ == (TerrainView {
                chunks: old(self)@.chunks.remove(chunk_pos),
                load_todo: old(self)@.load_todo.filter(is_not(chunk_pos)),
                ..old(self)@
            }),
    {
        let _ = self.chunk_map.remove(chunk_pos);
        list_remove(&mut self.load_todo, chunk_pos);
        assert(self@.chunks =~= old(self)@.chunks.remove(chunk_pos));
    }
}

impl Terrain {
    /// Whether a coordinate is loaded, waits to be generated or is being
    /// generated.
    pub fn is_known(&self, chunk_pos: IVec3) -> (r: bool)
        ensures
            r == self@.known(chunk_pos),
    {
        self.chunk_map.contains_key(chunk_pos) || list_contains(&self.load_todo, chunk_pos)
            || list_contains(&self.loading, chunk_pos)
    }

    /// Appends a coordinate to the list of what to load, unless it is known.
    fn enqueue_load(&mut self, chunk_pos: IVec3)
        ensures
            final(self)@ == (TerrainView {
                load_todo: if old(self)@.known(chunk_pos) {
                    old(self)@.load_todo
                } else {
                    old(self)@.load_todo.push(chunk_pos)
                },
                ..old(self)@
            }),
    {
        if !self.is_known(chunk_pos) {
            self.load_todo.push(chunk_pos);
        }
    }

    /// Goes through the coordinates whose offset from `center` lies in the
    /// box from `lo` to `hi`, level by level, and appends those that are not
    /// known to the list of what to load. The box is what a scan comes by at
    /// one stage.
    fn enqueue_box(
        &mut self,
        center: IVec3,
        lo: (i32, i32, i32),
        hi: (i32, i32, i32),
        Ghost(base): Ghost<TerrainView>,
        Ghost(seen): Ghost<Set<IVec3>>,
        Ghost(stage): Ghost<int>,
    )
        requires
            load_scanning(
                base,
                old(self)@,
                center,
                seen,
                scan_cursor(stage, lo.1 as int, lo.0 as int, lo.2 as int),
            ),
            -256 <= lo.0 <= 256 && -256 <= lo.1 <= 256 && -256 <= lo.2 <= 256,
            -256 <= hi.0 <= 256 && -256 <= hi.1 <= 256 && -256 <= hi.2 <= 256,
            forall|q: IVec3|
                box_around(
                    center,
                    (lo.0 as int, lo.1 as int, lo.2 as int),
                    (hi.0 as int, hi.1 as int, hi.2 as int),
                ).contains(q) ==> scan_stage(offset_from(center, q)) == stage,
        ensures
            load_scanning(
                base,
                final(self)@,
                center,
                seen.union(
                    box_around(
                        center,
                        (lo.0 as int, lo.1 as int, lo.2 as int),
                        (hi.0 as int, hi.1 as int, hi.2 as int),
                    ),
                ),
                scan_cursor(stage + 1, -512, -512, -512),
            ),
    {
        let ghost whole = box_around(
            center,
            (lo.0 as int, lo.1 as int, lo.2 as int),
            (hi.0 as int, hi.1 as int, hi.2 as int),
        );
        let ghost mut done: Set<IVec3> = seen;
        let mut y: i32 = lo.1;
        while y <= hi.1
            invariant
                -256 <= lo.0 <= 256 && -256 <= lo.1 <= 256 && -256 <= lo.2 <= 256,
                -256 <= hi.0 <= 256 && -256 <= hi.1 <= 256 && -256 <= hi.2 <= 256,
                lo.1 <= y <= 257,
                whole == box_around(
                    center,
                    (lo.0 as int, lo.1 as int, lo.2 as int),
                    (hi.0 as int, hi.1 as int, hi.2 as int),
                ),
                forall|q: IVec3|
                    whole.contains(q) ==> scan_stage(offset_from(center, q)) == stage,
                load_scanning(
                    base,
                    self@,
                    center,
                    done,
                    scan_cursor(stage, y as int, lo.0 as int, lo.2 as int),
                ),
                forall|q: IVec3|
                    done.contains(q) <==> seen.contains(q) || (whole.contains(q) && q.y - center.y
                        < y),
            decreases 257 - y,
        {
            let mut x: i32 = lo.0;
            while x <= hi.0
                invariant
                    -256 <= lo.0 <= 256 && -256 <= lo.1 <= 256 && -256 <= lo.2 <= 256,
                    -256 <= hi.0 <= 256 && -256 <= hi.1 <= 256 && -256 <= hi.2 <= 256,
                    lo.1 <= y <= hi.1,
                    lo.0 <= x <= 257,
                    whole == box_around(
                        center,
                        (lo.0 as int, lo.1 as int, lo.2 as int),
                        (hi.0 as int, hi.1 as int, hi.2 as int),
                    ),
                    forall|q: IVec3|
                        whole.contains(q) ==> scan_stage(offset_from(center, q)) == stage,
                    load_scanning(
                        base,
                        self@,
                        center,
                        done,
                        scan_cursor(stage, y as int, x as int, lo.2 as int),
                    ),
                    forall|q: IVec3|
                        done.contains(q) <==> seen.contains(q) || (whole.contains(q) && (q.y
                            - center.y < y || (q.y - center.y == y && q.x - center.x < x))),
                decreases 257 - x,
            {
                let mut z: i32 = lo.2;
                while z <= hi.2
                    invariant
                        -256 <= lo.0 <= 256 && -256 <= lo.1 <= 256 && -256 <= lo.2 <= 256,
                        -256 <= hi.0 <= 256 && -256 <= hi.1 <= 256 && -256 <= hi.2 <= 256,
                        lo.1 <= y <= hi.1,
                        lo.0 <= x <= hi.0,
                        lo.2 <= z <= 257,
                        whole == box_around(
                            center,
                            (lo.0 as int, lo.1 as int, lo.2 as int),
                            (hi.0 as int, hi.1 as int, hi.2 as int),
                        ),
                        forall|q: IVec3|
                            whole.contains(q) ==> scan_stage(offset_from(center, q)) == stage,
                        load_scanning(
                            base,
                            self@,
                            center,
                            done,
                            scan_cursor(stage, y as int, x as int, z as int),
                        ),
                        forall|q: IVec3|
                            done.contains(q) <==> seen.contains(q) || (whole.contains(q) && (q.y
                                - center.y < y || (q.y - center.y == y && (q.x - center.x < x || (
                            q.x - center.x == x && q.z - center.z < z))))),
                    decreases 257 - z,
                {
                    match center.offset(x, y, z) {
                        Some(cpos) => {
                            let ghost cur = self@;
                            self.enqueue_load(cpos);
                            proof {
                                assert(whole.contains(cpos));
                                lemma_load_scan_step(
                                    base,
                                    cur,
                                    self@,
                                    center,
                                    done,
                                    scan_cursor(stage, y as int, x as int, z as int),
                                    cpos,
                                );
                                done = done.insert(cpos);
                            }
                        },
                        None => {
                            proof {
                                lemma_load_scan_cursor(
                                    base,
                                    self@,
                                    center,
                                    done,
                                    scan_cursor(stage, y as int, x as int, z as int),
                                    scan_cursor(stage, y as int, x as int, z + 1),
                                );
                            }
                        },
                    }
                    z += 1;
                }
                proof {
                    lemma_load_scan_cursor(
                        base,
                        self@,
                        center,
                        done,
                        scan_cursor(stage, y as int, x as int, z as int),
                        scan_cursor(stage, y as int, x + 1, lo.2 as int),
                    );
                }
                x += 1;
            }
            proof {
                lemma_load_scan_cursor(
                    base,
                    self@,
                    center,
                    done,
                    scan_cursor(stage, y as int, x as int, lo.2 as int),
                    scan_cursor(stage, y + 1, lo.0 as int, lo.2 as int),
                );
            }
            y += 1;
        }
        proof {
            assert(done =~= seen.union(whole));
            lemma_load_scan_cursor(
                base,
                self@,
                center,
                done,
                scan_cursor(stage, y as int, lo.0 as int, lo.2 as int),
                scan_cursor(stage + 1, -512, -512, -512),
            );
        }
    }
}

impl Terrain {
    /// Scans for chunks to load around `chunk_pos`: first the coordinate
    /// itself, then shell by shell the coordinates around it.
    pub fn load_chunks(&mut self, chunk_pos: IVec3)
        ensures
            load_scan(old(self)@, final(self)@, chunk_pos),
    {
        let ghost base = self@;
        proof {
            reveal(scan_stage);
            assert(load_scanning(base, base, chunk_pos, Set::empty(), scan_cursor(0, 0, 0, 0)));
        }
        self.enqueue_box(chunk_pos, (0, 0, 0), (0, 0, 0), Ghost(base), Ghost(Set::empty()), Ghost(0));
        proof {
            assert(Set::<IVec3>::empty().union(box_around(chunk_pos, (0, 0, 0), (0, 0, 0))) =~= ball(
                chunk_pos,
                0,
            ));
        }
        let reach: i32 = self.render_distance as i32 + 1;
        let mut radius: i32 = 1;
        while radius <= reach
            invariant
                reach == base.render_distance + 1,
                1 <= radius <= reach + 1 <= 257,
                load_scanning(
                    base,
                    self@,
                    chunk_pos,
                    ball(chunk_pos, radius - 1),
                    scan_cursor(6 * radius, -512, -512, -512),
                ),
            decreases reach + 1 - radius,
        {
            let r: i32 = radius;
            let ghost mut seen = ball(chunk_pos, r - 1);
            let mut side: usize = 0;
            while side < 2
                invariant
                    side <= 2,
                    r == radius,
                    1 <= r <= 256,
                    load_scanning(
                        base,
                        self@,
                        chunk_pos,
                        seen,
                        scan_cursor(6 * r + 3 * side, -512, -512, -512),
                    ),
                    seen == (if side == 0 {
                        ball(chunk_pos, r - 1)
                    } else if side == 1 {
                        ball(chunk_pos, r - 1).union(shell_side(chunk_pos, r as int, -r))
                    } else {
                        ball(chunk_pos, r - 1).union(shell_side(chunk_pos, r as int, -r)).union(
                            shell_side(chunk_pos, r as int, r as int),
                        )
                    }),
                decreases 2 - side,
            {
                let edge: i32 = if side == 0 { -r } else { r };
                let ghost e = edge as int;
                let ghost stage = 6 * r + 3 * side;
                proof {
                    reveal(scan_stage);
                    lemma_load_scan_cursor(
                        base,
                        self@,
                        chunk_pos,
                        seen,
                        scan_cursor(stage, -512, -512, -512),
                        scan_cursor(stage, e, -r as int, -r as int),
                    );
                }
                self.enqueue_box(
                    chunk_pos,
                    (-r, edge, -r),
                    (r, edge, r),
                    Ghost(base),
                    Ghost(seen),
                    Ghost(stage),
                );
                let ghost seen_a = seen.union(box_around(chunk_pos, (-r, e, -r), (r as int, e, r as int)));
                proof {
                    lemma_load_scan_cursor(
                        base,
                        self@,
                        chunk_pos,
                        seen_a,
                        scan_cursor(stage + 1, -512, -512, -512),
                        scan_cursor(stage + 1, -r + 1, e, -r as int),
                    );
                }
                self.enqueue_box(
                    chunk_pos,
                    (edge, -r + 1, -r),
                    (edge, r - 1, r),
                    Ghost(base),
                    Ghost(seen_a),
                    Ghost(stage + 1),
                );
                let ghost seen_b = seen_a.union(
                    box_around(chunk_pos, (e, -r + 1, -r), (e, r - 1, r as int)),
                );
                proof {
                    lemma_load_scan_cursor(
                        base,
                        self@,
                        chunk_pos,
                        seen_b,
                        scan_cursor(stage + 2, -512, -512, -512),
                        scan_cursor(stage + 2, -r + 1, -r + 1, e),
                    );
                }
                self.enqueue_box(
                    chunk_pos,
                    (-r + 1, -r + 1, edge),
                    (r - 1, r - 1, edge),
                    Ghost(base),
                    Ghost(seen_b),
                    Ghost(stage + 2),
                );
                proof {
                    let seen_c = seen_b.union(
                        box_around(chunk_pos, (-r + 1, -r + 1, e), (r - 1, r - 1, e)),
                    );
                    assert(seen_c =~= seen.union(shell_side(chunk_pos, r as int, e)));
                    seen = seen_c;
                }
                side += 1;
            }
            proof {
                assert(seen =~= ball(chunk_pos, r as int));
            }
            radius += 1;
        }
        proof {
            let n = base.load_todo.len() as int;
            let s = self@.load_todo;
            assert forall|p: IVec3| #[trigger]
                holds_from(s, n, p) <==> p.spec_distance(chunk_pos) <= base.render_distance + 1
                    && !base.known(p) by {
                if holds_from(s, n, p) {
                    let i = choose|i: int| n <= i < s.len() && s[i] == p;
                    assert(ball(chunk_pos, base.render_distance + 1).contains(s[i]));
                }
                if p.spec_distance(chunk_pos) <= base.render_distance + 1 && !base.known(p) {
                    assert(ball(chunk_pos, base.render_distance + 1).contains(p));
                }
            }
        }
    }

    /// Scans for chunks to unload: every loaded chunk that is further than
    /// one more than the render distance from `chunk_pos` along some axis.
    pub fn unload_chunks(&mut self, chunk_pos: IVec3)
        ensures
            unload_scan(old(self)@, final(self)@, chunk_pos),
    {
        let keys = self.chunk_map.keys();
        let reach: i32 = self.render_distance as i32 + 1;
        let ghost base = self@;
        let ghost n = base.unload_todo.len() as int;
        let mut i: usize = 0;
        while i < keys.len()
            invariant
                i <= keys.len(),
                keys@.no_duplicates(),
                forall|p: IVec3| keys@.contains(p) <==> base.chunks.contains_key(p),
                n == base.unload_todo.len(),
                reach == base.render_distance + 1,
                self@ == (TerrainView { unload_todo: self@.unload_todo, ..base }),
                n <= self@.unload_todo.len(),
                forall|k: int| 0 <= k < n ==> #[trigger] self@.unload_todo[k] == base.unload_todo[k],
                forall|j: int, k: int|
                    n <= j < k < self@.unload_todo.len() ==> #[trigger] self@.unload_todo[j]
                        != #[trigger] self@.unload_todo[k],
                forall|k: int|
                    n <= k < self@.unload_todo.len() ==> holds_from(
                        keys@.take(i as int),
                        0,
                        #[trigger] self@.unload_todo[k],
                    ) && self@.unload_todo[k].spec_distance(chunk_pos) > base.render_distance + 1,
                forall|k: int|
                    0 <= k < i && (#[trigger] keys@[k]).spec_distance(chunk_pos) > base.render_distance
                        + 1 ==> holds_from(self@.unload_todo, n, keys@[k]),
            decreases keys.len() - i,
        {
            let cpos = keys[i];
            let ghost before = self@.unload_todo;
            if !cpos.within(chunk_pos, reach) {
                self.unload_todo.push(cpos);
                proof {
                    let after = self@.unload_todo;
                    assert(after[before.len() as int] == cpos);
                    assert forall|j: int, k: int| n <= j < k < after.len() implies #[trigger] after[j]
                        != #[trigger] after[k] by {
                        if k == before.len() {
                            assert(before[j] == after[j]);
                            assert(holds_from(keys@.take(i as int), 0, before[j]));
                            let m = choose|m: int|
                                0 <= m < keys@.take(i as int).len() && keys@.take(i as int)[m]
                                    == before[j];
                            assert(keys@[m] == before[j]);
                        } else {
                            assert(before[j] == after[j] && before[k] == after[k]);
                        }
                    }
                }
            }
            proof {
                let after = self@.unload_todo;
                assert forall|k: int| n <= k < after.len() implies holds_from(
                    keys@.take(i + 1),
                    0,
                    #[trigger] after[k],
                ) && after[k].spec_distance(chunk_pos) > base.render_distance + 1 by {
                    if k < before.len() {
                        assert(after[k] == before[k]);
                        let m = choose|m: int|
                            0 <= m < keys@.take(i as int).len() && keys@.take(i as int)[m]
                                == before[k];
                        assert(keys@.take(i + 1)[m] == before[k]);
                    } else {
                        assert(keys@.take(i + 1)[i as int] == cpos);
                    }
                }
                assert forall|k: int|
                    0 <= k < i + 1 && (#[trigger] keys@[k]).spec_distance(chunk_pos)
                        > base.render_distance + 1 implies holds_from(after, n, keys@[k]) by {
                    if k < i {
                        assert(holds_from(before, n, keys@[k]));
                        let m = choose|m: int| n <= m < before.len() && before[m] == keys@[k];
                        assert(after[m] == keys@[k]);
                    } else {
                        assert(after[before.len() as int] == cpos);
                    }
                }
                assert forall|k: int| 0 <= k < n implies #[trigger] after[k] == base.unload_todo[k] by {
                    assert(before[k] == base.unload_todo[k]);
                }
            }
            i += 1;
        }
        proof {
            let s = self@.unload_todo;
            assert(keys@.take(keys@.len() as int) =~= keys@);
            assert forall|p: IVec3| #[trigger]
                holds_from(s, n, p) <==> base.chunks.contains_key(p) && p.spec_distance(chunk_pos)
                    > base.render_distance + 1 by {
                if holds_from(s, n, p) {
                    let k = choose|k: int| n <= k < s.len() && s[k] == p;
                    assert(holds_from(keys@, 0, s[k]));
                    assert(keys@.contains(p));
                }
                if base.chunks.contains_key(p) && p.spec_distance(chunk_pos) > base.render_distance + 1 {
                    assert(keys@.contains(p));
                    let k = choose|k: int| 0 <= k < keys@.len() && keys@[k] == p;
                    assert(holds_from(s, n, keys@[k]));
                }
            }
        }
    }
}

impl Terrain {
    /// Puts a batch of blocks into the chunk at `chunk_pos` and notes anew
    /// whether the chunk is empty. Says whether the chunk is loaded; if it is
    /// not, nothing happens.
    fn edit_chunk(&mut self, chunk_pos: IVec3, changes: &BlockChanges) -> (applied: bool)
        requires
            changes_in_chunk(changes@),
        ensures
            applied == old(self)@.chunks.contains_key(chunk_pos),
            final(self)@ == old(self)@.with_edit(chunk_pos, changes@),
    {
        match self.chunk_map.remove(chunk_pos) {
            Some(data) => {
                let mut chunk = data.into_chunk();
                chunk.apply_changes(changes);
                let _ = self.chunk_map.insert(chunk_pos, ChunkData::new(chunk));
                assert(self@.chunks =~= old(self)@.chunks.insert(
                    chunk_pos,
                    old(self)@.chunks[chunk_pos].spec_edited(changes@),
                ));
                true
            },
            None => {
                assert(self@.chunks =~= old(self)@.chunks);
                false
            },
        }
    }

    /// Puts batches of blocks into their chunks, and gives back the batches
    /// whose chunk is loaded.
    fn apply_edits(&mut self, edits: Vec<(IVec3, BlockChanges)>) -> (applied: Vec<
        (IVec3, BlockChanges),
    >)
        requires
            edits_in_chunk(edits@),
        ensures
            final(self)@ == old(self)@.with_edits(edits@),
            applied@ == edits@.filter(edit_of(old(self)@.chunks)),
    {
        let ghost n = edits@.len() as int;
        let ghost start = self@;
        let mut stack = reversed(edits);
        let mut applied: Vec<(IVec3, BlockChanges)> = Vec::new();
        proof {
            reveal(Seq::filter);
            assert(edits@.take(0) =~= Seq::empty());
        }
        while stack.len() > 0
            invariant
                n == edits@.len(),
                edits_in_chunk(edits@),
                stack@.len() <= n,
                stack@ == edits@.reverse().take(stack@.len() as int),
                self@ == start.with_edits(edits@.take(n - stack@.len())),
                self@.chunks.dom() == start.chunks.dom(),
                applied@ == edits@.take(n - stack@.len()).filter(edit_of(start.chunks)),
            decreases stack.len(),
        {
            let ghost i = n - stack@.len();
            let edit = stack.pop().unwrap();
            proof {
                assert(edit == edits@[i]);
                assert(edits@.take(i + 1).drop_last() =~= edits@.take(i));
                assert(edits@.take(i + 1) =~= edits@.take(i).push(edit));
                edits@.take(i).lemma_filter_push(edit, edit_of(start.chunks));
                assert(stack@ =~= edits@.reverse().take(stack@.len() as int));
            }
            let ghost before = self@;
            if self.edit_chunk(edit.0, &edit.1) {
                applied.push(edit);
                assert(self@.chunks.dom() =~= before.chunks.dom());
            }
        }
        proof {
            assert(edits@.take(n) =~= edits@);
        }
        applied
    }

    /// Hands out the list of what to load: its coordinates are being loaded
    /// from now on.
    fn dispatch(&mut self) -> (dispatched: Vec<IVec3>)
        ensures
            final(self)@ == old(self)@.with_dispatch(),
            dispatched@ == old(self)@.load_todo,
    {
        let mut dispatched: Vec<IVec3> = Vec::new();
        std::mem::swap(&mut self.load_todo, &mut dispatched);
        let mut i: usize = 0;
        while i < dispatched.len()
            invariant
                i <= dispatched.len(),
                dispatched@ == old(self)@.load_todo,
                self@ == (TerrainView {
                    loading: old(self)@.loading + dispatched@.take(i as int),
                    load_todo: Seq::empty(),
                    ..old(self)@
                }),
            decreases dispatched.len() - i,
        {
            self.loading.push(dispatched[i]);
            proof {
                assert(self@.loading =~= old(self)@.loading + dispatched@.take(i + 1));
            }
            i += 1;
        }
        proof {
            assert(dispatched@.take(dispatched@.len() as int) =~= dispatched@);
        }
        dispatched
    }

    /// Takes generated chunks in, one after the other. Gives back their
    /// coordinates, and those at which a chunk was loaded already.
    fn harvest(&mut self, completed: Vec<ChunkGenResponse>) -> (r: (Vec<IVec3>, Vec<IVec3>))
        ensures
            final(self)@ == old(self)@.with_loaded(completed@),
            r.0@ == completed@.map_values(response_position()),
            r.1@ == old(self)@.overwritten(completed@),
    {
        let ghost n = completed@.len() as int;
        let ghost start = self@;
        let mut stack = reversed(completed);
        let mut loaded: Vec<IVec3> = Vec::new();
        let mut overwritten: Vec<IVec3> = Vec::new();
        proof {
            assert(completed@.take(0) =~= Seq::empty());
        }
        while stack.len() > 0
            invariant
                n == completed@.len(),
                stack@.len() <= n,
                stack@ == completed@.reverse().take(stack@.len() as int),
                self@ == start.with_loaded(completed@.take(n - stack@.len())),
                loaded@ == completed@.take(n - stack@.len()).map_values(response_position()),
                overwritten@ == start.overwritten(completed@.take(n - stack@.len())),
            decreases stack.len(),
        {
            let ghost i = n - stack@.len();
            let response = stack.pop().unwrap();
            proof {
                assert(response == completed@[i]);
                assert(completed@.take(i + 1).drop_last() =~= completed@.take(i));
                assert(stack@ =~= completed@.reverse().take(stack@.len() as int));
            }
            let position = response.position;
            if self.add_chunk(position, response.data) {
                overwritten.push(position);
            }
            list_remove(&mut self.loading, position);
            loaded.push(position);
            proof {
                assert(loaded@ =~= completed@.take(i + 1).map_values(response_position()));
            }
        }
        proof {
            assert(completed@.take(n) =~= completed@);
        }
        (loaded, overwritten)
    }

    /// Unloads up to `UNLOADS_PER_TICK` chunks, from the end of the list of
    /// what to unload, and gives back their coordinates.
    fn unload_some(&mut self) -> (unloaded: Vec<IVec3>)
        ensures
            final(self)@ == old(self)@.with_unloads(UNLOADS_PER_TICK as nat),
            unloaded@ == old(self)@.unloaded(UNLOADS_PER_TICK as nat),
    {
        let mut unloaded: Vec<IVec3> = Vec::new();
        let mut i: usize = 0;
        while i < UNLOADS_PER_TICK
            invariant
                i <= UNLOADS_PER_TICK,
                self@ == old(self)@.with_unloads(i as nat),
                unloaded@ == old(self)@.unloaded(i as nat),
            decreases UNLOADS_PER_TICK - i,
        {
            if let Some(chunk) = self.unload_todo.pop() {
                self.remove_chunk(chunk);
                unloaded.push(chunk);
            }
            i += 1;
        }
        unloaded
    }

    /// One tick of the store, with the observer in the chunk at `player_pos`.
    ///
    /// The tick puts the blocks of `terrain_changes_in` into their chunks;
    /// scans for chunks to load and to unload if the observer has moved to
    /// another chunk or the store is empty; hands out what is to be loaded;
    /// takes in the chunks of `completed`, which were generated since the
    /// last tick; and unloads up to `UNLOADS_PER_TICK` chunks.
    pub fn update(
        &mut self,
        player_pos: IVec3,
        terrain_changes_in: TerrainChanges,
        completed: Vec<ChunkGenResponse>,
    ) -> (tick: TerrainTick)
        requires
            edits_in_chunk(terrain_changes_in.modified_chunks@),
        ensures
            exists|scanned: TerrainView| #[trigger]
                tick_result(
                    old(self)@,
                    player_pos,
                    terrain_changes_in.modified_chunks@,
                    completed@,
                    scanned,
                    final(self)@,
                    tick,
                ),
    {
        let modified_chunks = self.apply_edits(terrain_changes_in.modified_chunks);
        let ghost edited = self@;
        proof {
            assert(edited.chunks.dom() =~= self.chunk_map@.dom());
        }

        if player_pos != self.player_chunk || (self.chunk_map.is_empty() && self.load_todo.len() == 0
            && self.loading.len() == 0) {
            self.load_chunks(player_pos);
            self.unload_chunks(player_pos);
            self.player_chunk = player_pos;
        }
        let ghost scanned = self@;

        let dispatched = self.dispatch();
        let (loaded_chunks, overwritten) = self.harvest(completed);
        let unloaded_chunks = self.unload_some();

        let tick = TerrainTick {
            changes: TerrainChanges { loaded_chunks, unloaded_chunks, modified_chunks },
            dispatched,
            overwritten,
        };
        proof {
            assert(tick_result(
                old(self)@,
                player_pos,
                terrain_changes_in.modified_chunks@,
                completed@,
                scanned,
                self@,
                tick,
            ));
        }
        tick
    }
}

/// Unloading keeps the lists of what is being loaded as they are, takes
/// nothing into the store, and unloads `count` chunks at most.
pub proof fn lemma_unloads(v: TerrainView, count: nat)
    ensures
        v.unloaded(count).len() <= count,
        v.unloaded(count).len() <= v.unload_todo.len(),
        v.with_unloads(count).unload_todo == v.unload_todo.take(
            v.unload_todo.len() - v.unloaded(count).len(),
        ),
        v.with_unloads(count).loading == v.loading,
        v.with_unloads(count).player_chunk == v.player_chunk,
        v.with_unloads(count).render_distance == v.render_distance,
        v.with_unloads(count).chunks.dom().subset_of(v.chunks.dom()),
        v.load_todo.len() == 0 ==> v.with_unloads(count).load_todo.len() == 0,
    decreases count,
{
    if count > 0 {
        let before = v.with_unloads((count - 1) as nat);
        lemma_unloads(v, (count - 1) as nat);
        if before.unload_todo.len() > 0 {
            before.load_todo.lemma_filter_len(is_not(before.unload_todo.last()));
            assert(before.unload_todo.drop_last() =~= v.unload_todo.take(
                v.unload_todo.len() - v.unloaded(count).len(),
            ));
        }
    } else {
        assert(v.unload_todo =~= v.unload_todo.take(v.unload_todo.len() as int));
    }
}

/// A chunk that was unloaded is not in the store afterwards.
pub proof fn lemma_unloaded_chunks_are_gone(v: TerrainView, count: nat, i: int)
    requires
        0 <= i < v.unloaded(count).len(),
    ensures
        !v.with_unloads(count).chunks.contains_key(v.unloaded(count)[i]),
    decreases count,
{
    let before = v.with_unloads((count - 1) as nat);
    if before.unload_todo.len() == 0 {
        lemma_unloaded_chunks_are_gone(v, (count - 1) as nat, i);
    } else if i < v.unloaded((count - 1) as nat).len() {
        lemma_unloaded_chunks_are_gone(v, (count - 1) as nat, i);
    }
}

/// Taking generated chunks in leaves the lists of what to load and what to
/// unload as they are.
pub proof fn lemma_loaded_keeps_lists(v: TerrainView, responses: Seq<ChunkGenResponse>)
    ensures
        v.with_loaded(responses).load_todo == v.load_todo,
        v.with_loaded(responses).unload_todo == v.unload_todo,
        v.with_loaded(responses).player_chunk == v.player_chunk,
        v.with_loaded(responses).render_distance == v.render_distance,
        forall|p: IVec3| v.chunks.contains_key(p) ==> v.with_loaded(responses).chunks.contains_key(p),
    decreases responses.len(),
{
    if responses.len() > 0 {
        lemma_loaded_keeps_lists(v, responses.drop_last());
    }
}

/// After a tick nothing waits to be handed out for generation, the observer's
/// chunk is the one that the tick was given, and the tick has unloaded
/// `UNLOADS_PER_TICK` chunks at most, none of which is in the store. The
/// batches that the tick hands on name each chunk once if those that it got
/// do.
pub proof fn lemma_tick(
    before: TerrainView,
    player_pos: IVec3,
    edits: Seq<(IVec3, BlockChanges)>,
    completed: Seq<ChunkGenResponse>,
    scanned: TerrainView,
    after: TerrainView,
    tick: TerrainTick,
)
    requires
        tick_result(before, player_pos, edits, completed, scanned, after, tick),
    ensures
        after.load_todo.len() == 0,
        after.player_chunk == player_pos,
        after.render_distance == before.render_distance,
        tick.changes.unloaded_chunks@.len() <= UNLOADS_PER_TICK,
        forall|i: int|
            0 <= i < tick.changes.unloaded_chunks@.len() ==> !after.chunks.contains_key(
                #[trigger] tick.changes.unloaded_chunks@[i],
            ),
        one_batch_each(edits) ==> one_batch_each(tick.changes.modified_chunks@),
{
    if one_batch_each(edits) {
        lemma_filter_keeps_one_batch_each(edits, edit_of(before.chunks));
    }
    let edited = before.with_edits(edits);
    lemma_edits_keep_lists(before, edits);
    let loaded = scanned.with_dispatch().with_loaded(completed);
    lemma_loaded_keeps_lists(scanned.with_dispatch(), completed);
    lemma_unloads(loaded, UNLOADS_PER_TICK as nat);
    assert forall|i: int| 0 <= i < tick.changes.unloaded_chunks@.len() implies !after.chunks.contains_key(
        #[trigger] tick.changes.unloaded_chunks@[i],
    ) by {
        lemma_unloaded_chunks_are_gone(loaded, UNLOADS_PER_TICK as nat, i);
    }
}

/// Putting blocks into chunks changes no list, and loads and unloads nothing.
pub proof fn lemma_edits_keep_lists(v: TerrainView, edits: Seq<(IVec3, BlockChanges)>)
    ensures
        v.with_edits(edits).load_todo == v.load_todo,
        v.with_edits(edits).loading == v.loading,
        v.with_edits(edits).unload_todo == v.unload_todo,
        v.with_edits(edits).player_chunk == v.player_chunk,
        v.with_edits(edits).render_distance == v.render_distance,
        v.with_edits(edits).chunks.dom() == v.chunks.dom(),
    decreases edits.len(),
{
    if edits.len() > 0 {
        lemma_edits_keep_lists(v, edits.drop_last());
        let before = v.with_edits(edits.drop_last());
        assert(before.with_edit(edits.last().0, edits.last().1@).chunks.dom() =~= before.chunks.dom());
    }
}

/// The coordinates on one side of the shell at distance `r` around `center`
/// that a scan comes by together: those on the face where `y` is `e` away,
/// those on the face where `x` is `e` away that are not on the first, and
/// those on the face where `z` is `e` away that are on neither.
pub open spec fn shell_side(center: IVec3, r: int, e: int) -> Set<IVec3> {
    box_around(center, (-r, e, -r), (r, e, r)).union(
        box_around(center, (e, -r + 1, -r), (e, r - 1, r)),
    ).union(box_around(center, (-r + 1, -r + 1, e), (r - 1, r - 1, e)))
}

} // verus!
