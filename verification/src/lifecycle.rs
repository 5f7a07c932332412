//! What holds of the terrain store over several ticks: how long it takes to
//! unload what has fallen out of the observer's reach, and when the store has
//! come to rest.

use vstd::prelude::*;
use crate::coords::{is_not, IVec3};
use crate::generator::ChunkGenResponse;
use crate::terrain::{
    holds_from, lemma_edits_keep_lists, lemma_loaded_keeps_lists, load_scan, scan, tick_result,
    unload_scan, BlockChanges, TerrainTick, TerrainView, UNLOADS_PER_TICK,
};

verus! {

/// Whether a generated chunk for the coordinate `p` is among `responses`.
pub open spec fn delivered(responses: Seq<ChunkGenResponse>, p: IVec3) -> bool {
    exists|i: int| 0 <= i < responses.len() && (#[trigger] responses[i]).position == p
}

/// The loaded coordinates that are out of the reach of an observer in the
/// chunk at `p`: more than one more than the render distance away.
pub open spec fn far_chunks(v: TerrainView, p: IVec3) -> Set<IVec3> {
    Set::new(|c: IVec3| v.chunks.contains_key(c) && c.spec_distance(p) > v.render_distance + 1)
}

/// The number of chunks that unloading up to `count` chunks unloads.
pub open spec fn unload_count(v: TerrainView, count: nat) -> int {
    if count <= v.unload_todo.len() {
        count as int
    } else {
        v.unload_todo.len() as int
    }
}

/// Unloading up to `count` chunks takes that many from the end of the list,
/// or all that there are; they are unloaded last first, and they are what
/// leaves the store.
pub proof fn lemma_unloads_exact(v: TerrainView, count: nat)
    ensures
        ({
            let left = v.unload_todo.len() - unload_count(v, count);
            let after = v.with_unloads(count);
            &&& after.unload_todo == v.unload_todo.take(left)
            &&& v.unloaded(count) == v.unload_todo.skip(left).reverse()
            &&& forall|c: IVec3| #[trigger]
                after.chunks.contains_key(c) <==> v.chunks.contains_key(c) && !v.unload_todo.skip(
                    left,
                ).contains(c)
        }),
    decreases count,
{
    let n = v.unload_todo.len() as int;
    if count == 0 {
        assert(v.unload_todo.take(n) =~= v.unload_todo);
        assert(v.unload_todo.skip(n).reverse() =~= Seq::<IVec3>::empty());
    } else {
        lemma_unloads_exact(v, (count - 1) as nat);
        let before = v.with_unloads((count - 1) as nat);
        let after = v.with_unloads(count);
        let left_before = n - unload_count(v, (count - 1) as nat);
        let left = n - unload_count(v, count);
        if before.unload_todo.len() > 0 {
            let last = before.unload_todo.last();
            assert(last == v.unload_todo[left]);
            assert(after.unload_todo =~= v.unload_todo.take(left));
            assert(v.unloaded(count) =~= v.unload_todo.skip(left).reverse());
            assert forall|c: IVec3|
                after.chunks.contains_key(c) <==> v.chunks.contains_key(c) && !v.unload_todo.skip(
                    left,
                ).contains(c) by {
                if v.unload_todo.skip(left).contains(c) {
                    let k = choose|k: int|
                        0 <= k < v.unload_todo.skip(left).len() && v.unload_todo.skip(left)[k] == c;
                    if k > 0 {
                        assert(v.unload_todo.skip(left_before)[k - 1] == c);
                    }
                }
                if v.unload_todo.skip(left_before).contains(c) {
                    let k = choose|k: int|
                        0 <= k < v.unload_todo.skip(left_before).len() && v.unload_todo.skip(
                            left_before,
                        )[k] == c;
                    assert(v.unload_todo.skip(left)[k + 1] == c);
                }
                if c == last {
                    assert(v.unload_todo.skip(left)[0] == c);
                }
            }
        }
    }
}

/// After generated chunks came in, the store holds what it held and what
/// came.
pub proof fn lemma_loaded_chunks(v: TerrainView, responses: Seq<ChunkGenResponse>, c: IVec3)
    ensures
        v.with_loaded(responses).chunks.contains_key(c) <==> v.chunks.contains_key(c) || delivered(
            responses,
            c,
        ),
    decreases responses.len(),
{
    if responses.len() > 0 {
        let rest = responses.drop_last();
        lemma_loaded_chunks(v, rest, c);
        if delivered(rest, c) {
            let i = choose|i: int| 0 <= i < rest.len() && (#[trigger] rest[i]).position == c;
            assert(responses[i].position == c);
        }
        if delivered(responses, c) {
            let i = choose|i: int|
                0 <= i < responses.len() && (#[trigger] responses[i]).position == c;
            if i < rest.len() {
                assert(rest[i].position == c);
            }
        }
        if responses.last().position == c {
            assert(responses[responses.len() - 1].position == c);
        }
    }
}

/// What a tick does to the list of what to unload and to the chunks of the
/// store. `listed` is the list after the scans of the tick; the tick unloads
/// up to `UNLOADS_PER_TICK` chunks from its end.
pub open spec fn tick_unloads(
    before: TerrainView,
    player_pos: IVec3,
    completed: Seq<ChunkGenResponse>,
    listed: Seq<IVec3>,
    after: TerrainView,
    unloaded: Seq<IVec3>,
) -> bool {
    let m = if listed.len() >= UNLOADS_PER_TICK {
        UNLOADS_PER_TICK as int
    } else {
        listed.len() as int
    };
    let left = listed.len() - m;
    &&& after.unload_todo == listed.take(left)
    &&& unloaded == listed.skip(left).reverse()
    &&& forall|c: IVec3| #[trigger]
        after.chunks.contains_key(c) <==> (before.chunks.contains_key(c) || delivered(completed, c))
            && !listed.skip(left).contains(c)
    &&& after.player_chunk == player_pos
    &&& after.render_distance == before.render_distance
    &&& if before.player_chunk == player_pos {
        listed == before.unload_todo
    } else {
        let n = before.unload_todo.len() as int;
        &&& n <= listed.len()
        &&& listed.take(n) == before.unload_todo
        &&& listed.skip(n).no_duplicates()
        &&& forall|c: IVec3| listed.skip(n).contains(c) <==> far_chunks(before, player_pos).contains(c)
    }
}

/// Every tick unloads as `tick_unloads` says.
pub proof fn lemma_tick_unloads(
    before: TerrainView,
    player_pos: IVec3,
    edits: Seq<(IVec3, BlockChanges)>,
    completed: Seq<ChunkGenResponse>,
    scanned: TerrainView,
    after: TerrainView,
    tick: TerrainTick,
)
    requires
        tick_result(before, player_pos, edits, completed, scanned, after, tick),
    ensures
        tick_unloads(
            before,
            player_pos,
            completed,
            scanned.unload_todo,
            after,
            tick.changes.unloaded_chunks@,
        ),
{
    let edited = before.with_edits(edits);
    lemma_edits_keep_lists(before, edits);
    let loaded = scanned.with_dispatch().with_loaded(completed);
    lemma_loaded_keeps_lists(scanned.with_dispatch(), completed);
    lemma_unloads_exact(loaded, UNLOADS_PER_TICK as nat);
    crate::terrain::lemma_unloads(loaded, UNLOADS_PER_TICK as nat);
    let listed = scanned.unload_todo;
    let n = before.unload_todo.len() as int;
    assert(scanned.chunks.dom() =~= before.chunks.dom());
    assert forall|c: IVec3|
        loaded.chunks.contains_key(c) <==> before.chunks.contains_key(c) || delivered(
            completed,
            c,
        ) by {
        lemma_loaded_chunks(scanned.with_dispatch(), completed, c);
    }
    let m = unload_count(loaded, UNLOADS_PER_TICK as nat);
    let left = listed.len() - m;
    assert(loaded.unload_todo == listed);
    assert forall|c: IVec3| #[trigger]
        after.chunks.contains_key(c) <==> (before.chunks.contains_key(c) || delivered(completed, c))
            && !listed.skip(left).contains(c) by {
        assert(after.chunks.contains_key(c) <==> loaded.chunks.contains_key(c)
            && !loaded.unload_todo.skip(left).contains(c));
        lemma_loaded_chunks(scanned.with_dispatch(), completed, c);
    }
    if edited.needs_scan(player_pos) {
        let between = TerrainView { load_todo: scanned.load_todo, ..edited };
        let s = listed;
        assert(unload_scan(
            between,
            TerrainView { player_chunk: edited.player_chunk, ..scanned },
            player_pos,
        ));
        if before.player_chunk == player_pos {
            if s.len() > n {
                assert(holds_from(s, n, s[n]));
                assert(edited.chunks.contains_key(s[n]));
                assert(edited.chunks.dom().contains(s[n]));
            }
            assert(s =~= before.unload_todo);
        } else {
            assert(s.take(n) =~= before.unload_todo);
            assert forall|i: int, j: int| 0 <= i < j < s.skip(n).len() implies s.skip(n)[i]
                != s.skip(n)[j] by {
                assert(s[n + i] != s[n + j]);
            }
            assert forall|c: IVec3| s.skip(n).contains(c) <==> far_chunks(
                before,
                player_pos,
            ).contains(c) by {
                if s.skip(n).contains(c) {
                    let k = choose|k: int| 0 <= k < s.skip(n).len() && s.skip(n)[k] == c;
                    assert(s[n + k] == c);
                    assert(holds_from(s, n, c));
                }
                if far_chunks(before, player_pos).contains(c) {
                    assert(edited.chunks.dom().contains(c));
                    assert(holds_from(s, n, c));
                    let k = choose|k: int| n <= k < s.len() && s[k] == c;
                    assert(s.skip(n)[k - n] == c);
                }
            }
        }
    }
}

/// One tick of a run of ticks: the store before and after, the generated
/// chunks that came in, and what the tick handed out and unloaded.
pub struct TickRecord {
    pub before: TerrainView,
    pub completed: Seq<ChunkGenResponse>,
    pub after: TerrainView,
    pub dispatched: Seq<IVec3>,
    pub unloaded: Seq<IVec3>,
}

/// Whether a record is what `Terrain::update` does with the observer in the
/// chunk at `player`, whatever blocks are put.
pub open spec fn is_tick(r: TickRecord, player: IVec3) -> bool {
    exists|edits: Seq<(IVec3, BlockChanges)>, scanned: TerrainView, tick: TerrainTick|
        #![trigger tick_result(r.before, player, edits, r.completed, scanned, r.after, tick)]
        tick_result(r.before, player, edits, r.completed, scanned, r.after, tick)
            && tick.changes.unloaded_chunks@ == r.unloaded && tick.dispatched@ == r.dispatched
}

/// Whether the records are those of ticks that follow one another, all with
/// the observer in the chunk at `player`.
pub open spec fn is_run(run: Seq<TickRecord>, player: IVec3) -> bool {
    &&& forall|j: int| 0 <= j < run.len() ==> is_tick(#[trigger] run[j], player)
    &&& forall|j: int| 0 <= j < run.len() - 1 ==> run[j + 1].before == (#[trigger] run[j]).after
}

/// The chunks that the ticks of a run unloaded, in the order in which they
/// went.
pub open spec fn all_unloaded(run: Seq<TickRecord>) -> Seq<IVec3>
    decreases run.len(),
{
    if run.len() == 0 {
        Seq::empty()
    } else {
        all_unloaded(run.drop_last()) + run.last().unloaded
    }
}

/// The list of what to unload as it stood in a tick after the scans: what
/// the tick left of it and what it unloaded.
pub open spec fn listed_of(r: TickRecord) -> Seq<IVec3> {
    r.after.unload_todo + r.unloaded.reverse()
}

/// The number of entries that are left of a list of `n` after `k` ticks.
pub open spec fn left_after(n: int, k: int) -> int {
    if n >= UNLOADS_PER_TICK * k {
        n - UNLOADS_PER_TICK * k
    } else {
        0
    }
}

/// Every tick of a run unloads as `tick_unloads` says.
pub proof fn lemma_record_unloads(r: TickRecord, player: IVec3)
    requires
        is_tick(r, player),
    ensures
        tick_unloads(r.before, player, r.completed, listed_of(r), r.after, r.unloaded),
{
    let (edits, scanned, tick) = choose|
        edits: Seq<(IVec3, BlockChanges)>,
        scanned: TerrainView,
        tick: TerrainTick,
    |
        #![trigger tick_result(r.before, player, edits, r.completed, scanned, r.after, tick)]
        tick_result(r.before, player, edits, r.completed, scanned, r.after, tick)
            && tick.changes.unloaded_chunks@ == r.unloaded && tick.dispatched@ == r.dispatched;
    lemma_tick_unloads(r.before, player, edits, r.completed, scanned, r.after, tick);
    assert(listed_of(r) =~= scanned.unload_todo);
}

/// In a run that starts with nothing to unload and with the observer coming
/// into another chunk, the first tick lists the chunks that are out of reach,
/// each once; and as long as no generated chunk comes in for one of them,
/// each tick takes `UNLOADS_PER_TICK` of them out of the store, last first,
/// until none is left.
pub proof fn lemma_run_unloads(run: Seq<TickRecord>, player: IVec3, k: int)
    requires
        1 <= k <= run.len(),
        is_run(run, player),
        run[0].before.unload_todo.len() == 0,
        run[0].before.player_chunk != player,
        forall|j: int, c: IVec3|
            0 <= j < run.len() && far_chunks(run[0].before, player).contains(c) ==> !#[trigger] delivered(
                run[j].completed,
                c,
            ),
    ensures
        ({
            let u = listed_of(run[0]);
            let left = left_after(u.len() as int, k);
            &&& u.no_duplicates()
            &&& forall|c: IVec3| u.contains(c) <==> far_chunks(run[0].before, player).contains(c)
            &&& run[k - 1].after.unload_todo == u.take(left)
            &&& all_unloaded(run.take(k)) == u.skip(left).reverse()
            &&& forall|c: IVec3| u.skip(left).contains(c) ==> !run[k - 1].after.chunks.contains_key(c)
            &&& run[k - 1].after.player_chunk == player
        }),
    decreases k,
{
    let u = listed_of(run[0]);
    let n = u.len() as int;
    let left = left_after(n, k);
    let r = run[k - 1];
    lemma_record_unloads(run[0], player);
    assert(u.skip(0) =~= u);
    lemma_record_unloads(r, player);
    assert(run.take(k).drop_last() =~= run.take(k - 1));
    assert(run.take(k).last() == r);
    if k == 1 {
        assert(all_unloaded(run.take(0)) =~= Seq::<IVec3>::empty());
        assert(all_unloaded(run.take(1)) =~= r.unloaded);
    } else {
        lemma_run_unloads(run, player, k - 1);
        let left_before = left_after(n, k - 1);
        let listed = listed_of(r);
        assert(r.before == run[k - 2].after);
        assert(listed == u.take(left_before));
        assert(r.after.unload_todo =~= u.take(left));
        assert(r.unloaded =~= u.subrange(left, left_before).reverse());
        assert(all_unloaded(run.take(k)) =~= u.skip(left).reverse());
        assert forall|c: IVec3| u.skip(left).contains(c) implies !r.after.chunks.contains_key(
            c,
        ) by {
            let i = choose|i: int| 0 <= i < u.skip(left).len() && u.skip(left)[i] == c;
            assert(u[left + i] == c);
            assert(u.contains(c));
            assert(!delivered(r.completed, c));
            if left + i >= left_before {
                assert(u.skip(left_before)[left + i - left_before] == c);
                assert(u.skip(left_before).contains(c));
                assert(!r.before.chunks.contains_key(c));
            } else {
                assert(listed.skip(left)[i] == c);
                assert(listed.skip(left).contains(c));
            }
        }
    }
}

/// A chunk that falls out of the observer's reach is unloaded within as many
/// ticks as it takes at `UNLOADS_PER_TICK` chunks a tick. In a run that
/// starts with nothing to unload and with the observer coming into another
/// chunk, that is long enough for the chunks out of reach, and in which no
/// generated chunk comes in for one of them: the list of what to unload is
/// empty at the end; the ticks have unloaded the chunks that were out of
/// reach, each once, and nothing else; and none of them is in the store.
pub proof fn lemma_far_chunks_are_unloaded(run: Seq<TickRecord>, player: IVec3)
    requires
        run.len() >= 1,
        is_run(run, player),
        run[0].before.unload_todo.len() == 0,
        run[0].before.player_chunk != player,
        far_chunks(run[0].before, player).finite(),
        far_chunks(run[0].before, player).len() <= UNLOADS_PER_TICK * run.len(),
        forall|j: int, c: IVec3|
            0 <= j < run.len() && far_chunks(run[0].before, player).contains(c) ==> !#[trigger] delivered(
                run[j].completed,
                c,
            ),
    ensures
        run.last().after.unload_todo.len() == 0,
        all_unloaded(run).no_duplicates(),
        forall|c: IVec3|
            all_unloaded(run).contains(c) <==> far_chunks(run[0].before, player).contains(c),
        forall|c: IVec3|
            far_chunks(run[0].before, player).contains(c) ==> !run.last().after.chunks.contains_key(
                c,
            ),
{
    let u = listed_of(run[0]);
    let far = far_chunks(run[0].before, player);
    lemma_run_unloads(run, player, run.len() as int);
    assert(run.take(run.len() as int) =~= run);
    u.unique_seq_to_set();
    assert(u.to_set() =~= far);
    assert(left_after(u.len() as int, run.len() as int) == 0);
    assert(u.skip(0) =~= u);
    let gone = all_unloaded(run);
    assert(gone == u.reverse());
    assert forall|i: int, j: int| 0 <= i < j < gone.len() implies gone[i] != gone[j] by {
        assert(u[u.len() - 1 - i] != u[u.len() - 1 - j]);
    }
    assert forall|c: IVec3| gone.contains(c) <==> far.contains(c) by {
        if gone.contains(c) {
            let i = choose|i: int| 0 <= i < gone.len() && gone[i] == c;
            assert(u[u.len() - 1 - i] == c);
        }
        if u.contains(c) {
            let i = choose|i: int| 0 <= i < u.len() && u[i] == c;
            assert(gone[u.len() - 1 - i] == c);
        }
    }
}

/// Whether a coordinate is within the reach of an observer in the chunk at
/// `p`: at most one more than the render distance away.
pub open spec fn in_reach(v: TerrainView, p: IVec3, c: IVec3) -> bool {
    c.spec_distance(p) <= v.render_distance + 1
}

/// What passes a test is what a list holds of it.
pub proof fn lemma_filter_member(s: Seq<IVec3>, pred: spec_fn(IVec3) -> bool, c: IVec3)
    ensures
        s.filter(pred).contains(c) <==> s.contains(c) && pred(c),
{
    if s.filter(pred).contains(c) {
        let i = choose|i: int| 0 <= i < s.filter(pred).len() && s.filter(pred)[i] == c;
        s.lemma_filter_pred(pred, i);
        s.lemma_filter_contains_rev(pred, c);
    }
    if s.contains(c) && pred(c) {
        let i = choose|i: int| 0 <= i < s.len() && s[i] == c;
        s.lemma_filter_contains(pred, i);
    }
}

/// After generated chunks came in, what is being loaded is what was being
/// loaded and has not come.
pub proof fn lemma_loaded_loading(v: TerrainView, responses: Seq<ChunkGenResponse>, c: IVec3)
    ensures
        v.with_loaded(responses).loading.contains(c) <==> v.loading.contains(c) && !delivered(
            responses,
            c,
        ),
    decreases responses.len(),
{
    if responses.len() > 0 {
        let rest = responses.drop_last();
        let last = responses.last();
        lemma_loaded_loading(v, rest, c);
        lemma_filter_member(v.with_loaded(rest).loading, is_not(last.position), c);
        if delivered(rest, c) {
            let i = choose|i: int| 0 <= i < rest.len() && (#[trigger] rest[i]).position == c;
            assert(responses[i].position == c);
        }
        if delivered(responses, c) {
            let i = choose|i: int|
                0 <= i < responses.len() && (#[trigger] responses[i]).position == c;
            if i < rest.len() {
                assert(rest[i].position == c);
            }
        }
        if last.position == c {
            assert(responses[responses.len() - 1].position == c);
        }
    }
}

/// What a tick does to the chunks and to what is being loaded, in a store
/// that has nothing to hand out, nothing to unload and no chunk out of
/// reach: nothing is unloaded; the store holds what it held and what came;
/// and what is being loaded is what was and what the scan of the tick found,
/// but for what came.
pub open spec fn tick_loads(
    before: TerrainView,
    player_pos: IVec3,
    completed: Seq<ChunkGenResponse>,
    after: TerrainView,
    dispatched: Seq<IVec3>,
    unloaded: Seq<IVec3>,
) -> bool {
    &&& after.load_todo.len() == 0
    &&& after.unload_todo.len() == 0
    &&& unloaded.len() == 0
    &&& after.player_chunk == player_pos
    &&& after.render_distance == before.render_distance
    &&& forall|c: IVec3| #[trigger]
        after.chunks.contains_key(c) <==> before.chunks.contains_key(c) || delivered(completed, c)
    &&& forall|c: IVec3| #[trigger]
        dispatched.contains(c) <==> before.needs_scan(player_pos) && in_reach(before, player_pos, c)
            && !before.known(c)
    &&& forall|c: IVec3| #[trigger]
        after.loading.contains(c) <==> (before.loading.contains(c) || dispatched.contains(c))
            && !delivered(completed, c)
}

/// Every tick of such a store loads as `tick_loads` says.
pub proof fn lemma_tick_loads(
    before: TerrainView,
    player_pos: IVec3,
    edits: Seq<(IVec3, BlockChanges)>,
    completed: Seq<ChunkGenResponse>,
    scanned: TerrainView,
    after: TerrainView,
    tick: TerrainTick,
)
    requires
        tick_result(before, player_pos, edits, completed, scanned, after, tick),
        before.load_todo.len() == 0,
        before.unload_todo.len() == 0,
        forall|c: IVec3| before.chunks.contains_key(c) ==> in_reach(before, player_pos, c),
    ensures
        tick_loads(
            before,
            player_pos,
            completed,
            after,
            tick.dispatched@,
            tick.changes.unloaded_chunks@,
        ),
{
    let edited = before.with_edits(edits);
    lemma_edits_keep_lists(before, edits);
    assert(edited.needs_scan(player_pos) == before.needs_scan(player_pos));
    let handed = scanned.with_dispatch();
    let loaded = handed.with_loaded(completed);
    lemma_loaded_keeps_lists(handed, completed);
    lemma_unloads_exact(loaded, UNLOADS_PER_TICK as nat);
    crate::terrain::lemma_unloads(loaded, UNLOADS_PER_TICK as nat);
    let s = scanned.load_todo;
    let u = scanned.unload_todo;
    // The scans: the list of what to unload stays empty, and the list of
    // what to load is what the scan found.
    if edited.needs_scan(player_pos) {
        let between = TerrainView { load_todo: s, ..edited };
        assert(load_scan(edited, between, player_pos));
        assert(unload_scan(
            between,
            TerrainView { player_chunk: edited.player_chunk, ..scanned },
            player_pos,
        ));
        if u.len() > 0 {
            assert(holds_from(u, 0, u[0]));
            assert(between.chunks.contains_key(u[0]));
            assert(edited.chunks.dom().contains(u[0]));
            assert(before.chunks.contains_key(u[0]));
            assert(in_reach(before, player_pos, u[0]));
        }
        assert(u.len() == 0);
        assert forall|c: IVec3| #[trigger]
            s.contains(c) <==> in_reach(before, player_pos, c) && !before.known(c) by {
            if s.contains(c) {
                let i = choose|i: int| 0 <= i < s.len() && s[i] == c;
                assert(holds_from(s, 0, c));
            }
            if in_reach(before, player_pos, c) && !before.known(c) {
                assert(edited.chunks.dom().contains(c) == before.chunks.dom().contains(c));
                assert(!edited.known(c));
                assert(holds_from(s, 0, c));
            }
        }
        assert(scanned.loading == before.loading);
    } else {
        assert(s.len() == 0);
        assert(u.len() == 0);
    }
    assert(scanned.chunks.dom() =~= before.chunks.dom());
    assert(loaded.unload_todo.len() == 0);
    assert(after.unload_todo =~= loaded.unload_todo.take(0));
    assert(loaded.unload_todo.skip(0) =~= Seq::<IVec3>::empty());
    assert forall|c: IVec3| #[trigger]
        after.chunks.contains_key(c) <==> before.chunks.contains_key(c) || delivered(
            completed,
            c,
        ) by {
        lemma_loaded_chunks(handed, completed, c);
        assert(after.chunks.contains_key(c) <==> loaded.chunks.contains_key(c)
            && !loaded.unload_todo.skip(0).contains(c));
    }
    assert forall|c: IVec3| #[trigger]
        after.loading.contains(c) <==> (before.loading.contains(c) || s.contains(c)) && !delivered(
            completed,
            c,
        ) by {
        lemma_loaded_loading(handed, completed, c);
        if handed.loading.contains(c) {
            let i = choose|i: int| 0 <= i < handed.loading.len() && handed.loading[i] == c;
            if i < scanned.loading.len() {
                assert(scanned.loading[i] == c);
            } else {
                assert(s[i - scanned.loading.len()] == c);
            }
        }
        if scanned.loading.contains(c) {
            let i = choose|i: int| 0 <= i < scanned.loading.len() && scanned.loading[i] == c;
            assert(handed.loading[i] == c);
        }
        if s.contains(c) {
            let i = choose|i: int| 0 <= i < s.len() && s[i] == c;
            assert(handed.loading[scanned.loading.len() + i] == c);
        }
    }
}

/// Whether a generated chunk for the coordinate `c` came in during one of
/// the first `k` ticks of a run.
pub open spec fn came(run: Seq<TickRecord>, k: int, c: IVec3) -> bool {
    exists|j: int| 0 <= j < k && j < run.len() && #[trigger] delivered(run[j].completed, c)
}

/// Whether a store knows of no chunk and has nothing to unload.
pub open spec fn is_cold(v: TerrainView) -> bool {
    &&& forall|c: IVec3| !v.chunks.contains_key(c)
    &&& v.load_todo.len() == 0
    &&& v.loading.len() == 0
    &&& v.unload_todo.len() == 0
    &&& v.render_distance >= 0
}

/// Whether only such generated chunks come in during a run as are being
/// loaded when they come.
pub open spec fn no_strays(run: Seq<TickRecord>) -> bool {
    forall|j: int, c: IVec3|
        0 <= j < run.len() && #[trigger] delivered(run[j].completed, c)
            ==> run[j].before.loading.contains(c)
}

/// Every tick of a run in a store that has nothing to hand out, nothing to
/// unload and no chunk out of reach loads as `tick_loads` says.
pub proof fn lemma_record_loads(r: TickRecord, player: IVec3)
    requires
        is_tick(r, player),
        r.before.load_todo.len() == 0,
        r.before.unload_todo.len() == 0,
        forall|c: IVec3| r.before.chunks.contains_key(c) ==> in_reach(r.before, player, c),
    ensures
        tick_loads(r.before, player, r.completed, r.after, r.dispatched, r.unloaded),
{
    let (edits, scanned, tick) = choose|
        edits: Seq<(IVec3, BlockChanges)>,
        scanned: TerrainView,
        tick: TerrainTick,
    |
        #![trigger tick_result(r.before, player, edits, r.completed, scanned, r.after, tick)]
        tick_result(r.before, player, edits, r.completed, scanned, r.after, tick)
            && tick.changes.unloaded_chunks@ == r.unloaded && tick.dispatched@ == r.dispatched;
    lemma_tick_loads(r.before, player, edits, r.completed, scanned, r.after, tick);
}

/// A run of ticks from a cold store, with the observer staying in one chunk
/// and no strays coming in: the first tick hands out every coordinate within
/// reach; from then on the store holds the chunks within reach that have
/// come, and is loading those that have not; nothing waits to be handed out
/// or to be unloaded.
pub proof fn lemma_run_loads(run: Seq<TickRecord>, player: IVec3, k: int)
    requires
        1 <= k <= run.len(),
        is_run(run, player),
        is_cold(run[0].before),
        no_strays(run),
    ensures
        ({
            let start = run[0].before;
            let a = run[k - 1].after;
            &&& a.load_todo.len() == 0
            &&& a.unload_todo.len() == 0
            &&& a.player_chunk == player
            &&& a.render_distance == start.render_distance
            &&& forall|c: IVec3| #[trigger]
                a.chunks.contains_key(c) <==> in_reach(start, player, c) && came(run, k, c)
            &&& forall|c: IVec3| #[trigger]
                a.loading.contains(c) <==> in_reach(start, player, c) && !came(run, k, c)
        }),
    decreases k,
{
    let start = run[0].before;
    let r = run[k - 1];
    let a = r.after;
    assert forall|c: IVec3| came(run, k, c) <==> came(run, k - 1, c) || delivered(
        r.completed,
        c,
    ) by {
        if came(run, k, c) {
            let j = choose|j: int|
                0 <= j < k && j < run.len() && #[trigger] delivered(run[j].completed, c);
            if j < k - 1 {
                assert(came(run, k - 1, c));
            }
        }
        if came(run, k - 1, c) {
            let j = choose|j: int|
                0 <= j < k - 1 && j < run.len() && #[trigger] delivered(run[j].completed, c);
            assert(0 <= j < k && delivered(run[j].completed, c));
        }
        if delivered(r.completed, c) {
            assert(0 <= k - 1 < k && delivered(run[k - 1].completed, c));
        }
    }
    if k == 1 {
        lemma_record_loads(r, player);
        assert(start.chunks.dom() =~= Set::<IVec3>::empty());
        assert(start.needs_scan(player));
        assert forall|c: IVec3| !delivered(r.completed, c) by {
            if delivered(r.completed, c) {
                assert(run[0].before.loading.contains(c));
            }
        }
        assert forall|c: IVec3| !came(run, 0, c) by {}
        assert forall|c: IVec3| #[trigger]
            a.loading.contains(c) <==> in_reach(start, player, c) && !came(run, k, c) by {
            assert(!start.known(c));
        }
    } else {
        lemma_run_loads(run, player, k - 1);
        let b = r.before;
        assert(b == run[k - 2].after);
        lemma_record_loads(r, player);
        // The chunk of the observer is within reach: it is loaded or being
        // loaded, so the store is not cold and does not scan.
        assert(in_reach(start, player, player));
        if came(run, k - 1, player) {
            assert(b.chunks.contains_key(player));
            assert(b.chunks.dom().contains(player));
        } else {
            assert(b.loading.contains(player));
        }
        assert(!b.needs_scan(player));
        assert forall|c: IVec3| delivered(r.completed, c) implies in_reach(start, player, c)
            && !came(run, k - 1, c) by {
            assert(run[k - 1].before.loading.contains(c));
        }
        assert forall|c: IVec3| #[trigger]
            a.chunks.contains_key(c) <==> in_reach(start, player, c) && came(run, k, c) by {}
        assert forall|c: IVec3| #[trigger]
            a.loading.contains(c) <==> in_reach(start, player, c) && !came(run, k, c) by {
            assert(!r.dispatched.contains(c));
        }
    }
}

/// A cold store comes to rest: once a generated chunk has come in for every
/// coordinate within reach of the observer, who stays in one chunk, nothing
/// waits to be handed out, nothing is being loaded, nothing waits to be
/// unloaded, and the store holds the chunks within reach and no others.
pub proof fn lemma_store_comes_to_rest(run: Seq<TickRecord>, player: IVec3)
    requires
        run.len() >= 1,
        is_run(run, player),
        is_cold(run[0].before),
        no_strays(run),
        forall|c: IVec3| in_reach(run[0].before, player, c) ==> came(run, run.len() as int, c),
    ensures
        run.last().after.load_todo.len() == 0,
        run.last().after.loading.len() == 0,
        run.last().after.unload_todo.len() == 0,
        forall|c: IVec3|
            run.last().after.chunks.contains_key(c) <==> in_reach(run[0].before, player, c),
{
    lemma_run_loads(run, player, run.len() as int);
    let a = run.last().after;
    if a.loading.len() > 0 {
        assert(a.loading.contains(a.loading[0]));
    }
}

/// A store at rest stays at rest: with nothing to hand out, nothing being
/// loaded, nothing to unload, some chunk loaded and none out of reach, a
/// tick with the observer in the same chunk hands out nothing, unloads
/// nothing and leaves the store holding the chunks that it held.
pub proof fn lemma_rest_stays(r: TickRecord, player: IVec3)
    requires
        is_tick(r, player),
        r.before.player_chunk == player,
        r.before.load_todo.len() == 0,
        r.before.loading.len() == 0,
        r.before.unload_todo.len() == 0,
        exists|c: IVec3| r.before.chunks.contains_key(c),
        forall|c: IVec3| r.before.chunks.contains_key(c) ==> in_reach(r.before, player, c),
        forall|c: IVec3| delivered(r.completed, c) ==> r.before.loading.contains(c),
    ensures
        r.dispatched.len() == 0,
        r.unloaded.len() == 0,
        r.after.load_todo.len() == 0,
        r.after.loading.len() == 0,
        r.after.unload_todo.len() == 0,
        r.after.player_chunk == player,
        forall|c: IVec3| r.after.chunks.contains_key(c) <==> r.before.chunks.contains_key(c),
{
    lemma_record_loads(r, player);
    let c0 = choose|c: IVec3| r.before.chunks.contains_key(c);
    assert(r.before.chunks.dom().contains(c0));
    assert(!r.before.needs_scan(player));
    if r.dispatched.len() > 0 {
        assert(r.dispatched.contains(r.dispatched[0]));
    }
    if r.after.loading.len() > 0 {
        assert(r.after.loading.contains(r.after.loading[0]));
    }
    assert forall|c: IVec3| r.after.chunks.contains_key(c) <==> r.before.chunks.contains_key(
        c,
    ) by {
        if delivered(r.completed, c) {
            assert(r.before.loading.contains(c));
        }
    }
}

} // verus!
