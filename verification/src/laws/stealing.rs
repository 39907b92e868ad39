//! Which task comes next: what the operations do to the queues, told task by task.

use crate::laws::after_bumps;
use crate::queue::{queue_items, queue_limit, queue_room, steal_count};
use crate::runner::{
    after_search, after_shards, lemma_victim_from, rotated, search_task, shards_task, victim_from,
    RunnerView, FAIRNESS_INTERVAL,
};
use crate::state::{StateView, SHARD_CAPACITY};
use concurrent_queue::ConcurrentQueue;
use vstd::prelude::*;

verus! {

/// How many steps it takes from position `start` to position `i` in a list of `n` that starts over
/// behind its end.
pub open spec fn steps(n: int, start: int, i: int) -> int {
    if i >= start {
        i - start
    } else {
        i - start + n
    }
}

/// Of the shards with a task, but for the one at position `own`, the one at position `v` comes first
/// when they are looked through from position `start` on.
pub open spec fn is_nearest(state: StateView, own: int, start: int, v: int) -> bool {
    let n = state.shards.len() as int;
    &&& 0 <= v < n
    &&& v != own
    &&& state.shards[v].tasks.len() > 0
    &&& forall|i: int|
        0 <= i < n && i != own && (#[trigger] state.shards[i]).tasks.len() > 0 ==> steps(n, start, v)
            <= steps(n, start, i)
}

/// The shards are the same ones in the same places. Their tasks are as before, but for those at
/// positions `a` and `b`.
pub open spec fn same_shards_but(before: StateView, after: StateView, a: int, b: int) -> bool {
    &&& after.shards.len() == before.shards.len()
    &&& after.next_shard == before.next_shard
    &&& forall|i: int|
        0 <= i < before.shards.len() ==> (#[trigger] after.shards[i]).id == before.shards[i].id
    &&& forall|i: int|
        0 <= i < before.shards.len() && i != a && i != b ==> (#[trigger] after.shards[i]).tasks
            == before.shards[i].tasks
}

/// The sleeping tickers are as they were.
pub open spec fn same_tickers(before: StateView, after: StateView) -> bool {
    after.sleepers == before.sleepers && after.notified == before.notified
}

/// Half of `len`, rounded up, or as many as fit into `room`.
pub open spec fn half_that_fits(len: int, room: int) -> int {
    if (len + 1) / 2 <= room {
        (len + 1) / 2
    } else {
        room
    }
}

/// The runner whose shard stands at position `own` robs the nearest shard that has a task: `task`
/// is the first one there, the rest of the first half moves into the runner's shard, and the other
/// half stays.
pub open spec fn robs(before: StateView, after: StateView, own: int, start: int, task: u64) -> bool {
    exists|v: int| #[trigger] is_nearest(before, own, start, v) && robs_at(before, after, own, v, task)
}

/// As [`robs`], with the robbed shard at position `v`.
pub open spec fn robs_at(before: StateView, after: StateView, own: int, v: int, task: u64) -> bool {
    let kept = after.shards[v].tasks;
    let moved = after.shards[own].tasks;
    &&& before.shards[v].tasks == seq![task] + moved + kept
    &&& moved.len() + 1 == (before.shards[v].tasks.len() + 1) / 2
    &&& after.queue == before.queue
    &&& same_shards_but(before, after, own, v)
}

/// The runner whose shard stands at position `own` finds `task`: in its own shard, else in the global
/// queue, of which half of the rest moves into its shard, else in the nearest shard that has one.
pub open spec fn picks(before: StateView, after: StateView, own: int, start: int, task: u64) -> bool {
    if before.shards[own].tasks.len() > 0 {
        &&& before.shards[own].tasks == seq![task] + after.shards[own].tasks
        &&& after.queue == before.queue
        &&& same_shards_but(before, after, own, own)
    } else if before.queue.len() > 0 {
        let moved = after.shards[own].tasks;
        &&& before.queue == seq![task] + moved + after.queue
        &&& moved.len() == half_that_fits(before.queue.len() - 1, SHARD_CAPACITY as int)
        &&& same_shards_but(before, after, own, own)
    } else {
        robs(before, after, own, start, task)
    }
}

/// All queues are empty.
pub open spec fn all_empty(state: StateView) -> bool {
    &&& state.queue.len() == 0
    &&& forall|i: int| 0 <= i < state.shards.len() ==> (#[trigger] state.shards[i]).tasks.len() == 0
}

/// The shard at position `own` steals from the global queue: half of the tasks there, rounded up, or
/// as many as fit, move from the front of the queue to the end of the shard.
pub open spec fn steals(before: StateView, after: StateView, own: int) -> bool {
    exists|moved: Seq<u64>| #[trigger] steals_these(before, after, own, moved)
}

/// As [`steals`], with the tasks that move.
pub open spec fn steals_these(
    before: StateView,
    after: StateView,
    own: int,
    moved: Seq<u64>,
) -> bool {
    &&& before.queue == moved + after.queue
    &&& after.shards[own].tasks == before.shards[own].tasks + moved
    &&& moved.len() == half_that_fits(
        before.queue.len() as int,
        SHARD_CAPACITY - before.shards[own].tasks.len(),
    )
    &&& same_shards_but(before, after, own, own)
}

/// A shard is found by its number.
pub proof fn law_shard_index(state: StateView, id: u64)
    requires
        state.wf(),
    ensures
        state.has_shard(id) <==> exists|i: int|
            0 <= i < state.shards.len() && (#[trigger] state.shards[i]).id == id,
        state.has_shard(id) ==> 0 <= state.shard_index(id) < state.shards.len()
            && state.shards[state.shard_index(id)].id == id,
        forall|i: int|
            0 <= i < state.shards.len() && (#[trigger] state.shards[i]).id == id ==> i
                == state.shard_index(id),
{
    if state.has_shard(id) {
        assert(state.shard_at(id, state.shard_index(id)));
    }
    assert forall|i: int| 0 <= i < state.shards.len() && (#[trigger] state.shards[i]).id == id implies i
        == state.shard_index(id) by {
        assert(state.shard_at(id, i));
        state.lemma_shard_index(id, i);
    }
    if exists|i: int| 0 <= i < state.shards.len() && (#[trigger] state.shards[i]).id == id {
        let i = choose|i: int| 0 <= i < state.shards.len() && (#[trigger] state.shards[i]).id == id;
        assert(state.shard_at(id, i));
    }
}

/// Stealing moves half of the tasks, rounded up, or fills the room that there is.
pub proof fn law_steals_half(len: nat, room: Option<nat>)
    ensures
        match room {
            None => 2 * steal_count(len, room) == len || 2 * steal_count(len, room) == len + 1,
            Some(room) => {
                let count = steal_count(len, Some(room));
                ||| 2 * count == len && count <= room
                ||| 2 * count == len + 1 && count <= room
                ||| count == room && 2 * count < len
            },
        },
        steal_count(len, room) == match room {
            None => (len as int + 1) / 2,
            Some(room) => half_that_fits(len as int, room as int),
        },
{
}

/// The room in a queue is what it takes, less what it holds.
pub proof fn law_queue_room(queue: ConcurrentQueue<u64>)
    ensures
        queue_room(queue) is Some <==> queue_limit(queue) is Some,
        queue_limit(queue) matches Some(limit) ==> queue_items(queue).len() <= limit ==> queue_room(
            queue,
        ) == Some((limit - queue_items(queue).len()) as nat),
{
}

/// Of the shards that are looked through, the first one with a task is the nearest one.
proof fn lemma_nearest(state: StateView, own: int, start: int)
    requires
        0 <= start < state.shards.len(),
    ensures
        match victim_from(state, own, start, 0) {
            Some(v) => is_nearest(state, own, start, v),
            None => forall|i: int|
                0 <= i < state.shards.len() && i != own ==> (#[trigger] state.shards[i]).tasks.len()
                    == 0,
        },
{
    let n = state.shards.len() as int;
    lemma_victim_from(state, own, start, 0);
    match victim_from(state, own, start, 0) {
        Some(v) => {
            let k = choose|k: int|
                0 <= k < n && #[trigger] rotated(n, start, k) == v && forall|m: int|
                    0 <= m < k ==> !crate::runner::is_victim(
                        state,
                        own,
                        #[trigger] rotated(n, start, m),
                    );
            assert(steps(n, start, v) == k);
            assert forall|i: int|
                0 <= i < n && i != own && (#[trigger] state.shards[i]).tasks.len() > 0 implies steps(
                n,
                start,
                v,
            ) <= steps(n, start, i) by {
                let m = steps(n, start, i);
                assert(rotated(n, start, m) == i);
                assert(crate::runner::is_victim(state, own, i));
            }
        },
        None => {
            assert forall|i: int| 0 <= i < n && i != own implies (#[trigger] state.shards[i]).tasks.len()
                == 0 by {
                let m = steps(n, start, i);
                assert(rotated(n, start, m) == i);
                assert(!crate::runner::is_victim(state, own, i));
            }
        },
    }
}

/// A runner with an empty shard that looks through the other shards robs the nearest one that has a
/// task. If none has, it changes nothing.
pub proof fn law_search_shards(state: StateView, own: int, start: int)
    requires
        state.wf(),
        0 <= own < state.shards.len(),
        0 <= start < state.shards.len(),
        state.shards[own].tasks.len() == 0,
    ensures
        same_tickers(state, after_shards(state, own, start)),
        match shards_task(state, own, start) {
            Some(task) => robs(state, after_shards(state, own, start), own, start, task),
            None => {
                &&& after_shards(state, own, start) == state
                &&& forall|i: int|
                    0 <= i < state.shards.len() ==> (#[trigger] state.shards[i]).tasks.len() == 0
            },
        },
{
    lemma_nearest(state, own, start);
    let after = after_shards(state, own, start);
    if let Some(v) = victim_from(state, own, start, 0) {
        let tasks = state.shards[v].tasks;
        let n = tasks.len() as int;
        let c = (n + 1) / 2;
        law_steals_half(n as nat, Some(state.room(own)));
        assert(after.shards[v].tasks =~= tasks.skip(c));
        assert(after.shards[own].tasks =~= tasks.subrange(1, c));
        assert(tasks =~= seq![tasks[0]] + after.shards[own].tasks + after.shards[v].tasks);
        assert(is_nearest(state, own, start, v));
        assert(robs_at(state, after, own, v, tasks[0]));
    }
}

/// What a runner finds: the first task of its own shard, else of the global queue, else of the
/// nearest shard that has one. It takes half of what is left where it found it, but for its own shard,
/// and finds nothing exactly if all queues are empty.
pub proof fn law_search(state: StateView, own: int, start: int)
    requires
        state.wf(),
        0 <= own < state.shards.len(),
        0 <= start < state.shards.len(),
    ensures
        same_tickers(state, after_search(state, own, start)),
        match search_task(state, own, start) {
            Some(task) => picks(state, after_search(state, own, start), own, start, task),
            None => all_empty(state) && after_search(state, own, start) == state,
        },
        search_task(state, own, start) is None <==> all_empty(state),
{
    let after = after_search(state, own, start);
    let tasks = state.shards[own].tasks;
    if tasks.len() > 0 {
        assert(tasks =~= seq![tasks[0]] + after.shards[own].tasks);
        assert(!all_empty(state));
    } else if state.queue.len() > 0 {
        let len = (state.queue.len() - 1) as nat;
        law_steals_half(len, Some(state.popped().room(own)));
        let c = half_that_fits(len as int, SHARD_CAPACITY as int);
        assert(state.popped().shards == state.shards);
        assert(after.shards[own].tasks =~= state.queue.subrange(1, 1 + c));
        assert(after.queue =~= state.queue.skip(1 + c));
        assert(state.queue =~= seq![state.queue[0]] + after.shards[own].tasks + after.queue);
    } else {
        law_search_shards(state, own, start);
        if let Some(task) = shards_task(state, own, start) {
            lemma_nearest(state, own, start);
            let v = victim_from(state, own, start, 0)->0;
            assert(state.shards[v].tasks.len() > 0);
            assert(!all_empty(state));
        } else {
            assert(all_empty(state));
        }
    }
}

/// An executor is idle exactly if all queues are empty.
pub proof fn law_idle(state: StateView)
    ensures
        state.is_idle() <==> all_empty(state),
{
}

/// For every value of the counter, a runner that counts a task adds one to it, starting over at the
/// end of its range. If the value is a multiple of the interval, its shard steals from the global
/// queue, and otherwise nothing moves.
pub proof fn law_bump(runner: RunnerView, state: StateView)
    requires
        state.wf(),
        runner.attached(state),
    ensures
        runner.ticks < usize::MAX ==> runner.after_bump().ticks == runner.ticks + 1,
        runner.ticks == usize::MAX ==> runner.after_bump().ticks == 0,
        runner.after_bump().sleeping == runner.sleeping,
        runner.after_bump().shard == runner.shard,
        same_tickers(state, runner.state_after_bump(state)),
        exists|own: int|
            0 <= own < state.shards.len() && (#[trigger] state.shards[own]).id == runner.shard
                && if runner.ticks as int % FAIRNESS_INTERVAL as int == 0 {
                steals(state, runner.state_after_bump(state), own)
            } else {
                runner.state_after_bump(state) == state
            },
{
    let own = state.shard_index(runner.shard);
    assert(state.shard_at(runner.shard, own));
    let after = runner.state_after_bump(state);
    law_steals_half(state.queue.len(), Some(state.room(own)));
    let c = steal_count(state.queue.len(), Some(state.room(own))) as int;
    if runner.ticks as int % FAIRNESS_INTERVAL as int == 0 {
        let moved = state.queue.take(c);
        assert(state.queue =~= moved + after.queue);
        assert(steals_these(state, after, own, moved));
    }
    assert(state.shards[own].id == runner.shard);
}

/// Whatever a runner has counted so far, and whatever happens to the executor in between: when it
/// counts as many tasks as there are in the interval, and finds tasks in the global queue and room in
/// its shard each time, then at one of them the task that has waited longest in the global queue
/// moves into its shard.
pub proof fn law_fairness_serves_oldest(runner: RunnerView, states: Seq<StateView>)
    requires
        states.len() == FAIRNESS_INTERVAL,
        forall|m: int|
            0 <= m < states.len() ==> {
                let state = #[trigger] states[m];
                let own = state.shard_index(runner.shard);
                &&& state.wf()
                &&& state.has_shard(runner.shard)
                &&& state.queue.len() > 0
                &&& state.shards[own].tasks.len() < SHARD_CAPACITY
            },
    ensures
        exists|m: int|
            0 <= m < FAIRNESS_INTERVAL && {
                let state = #[trigger] states[m];
                let own = state.shard_index(runner.shard);
                let after = after_bumps(runner, m as nat).state_after_bump(state);
                &&& after.shards[own].tasks.contains(state.queue[0])
                &&& after.queue.len() < state.queue.len()
            },
{
    crate::laws::law_fairness_within_interval(runner);
    let n = choose|n: nat|
        n < FAIRNESS_INTERVAL && (#[trigger] after_bumps(runner, n)).is_fairness_tick();
    lemma_bumps_keep_shard(runner, n);
    let state = states[n as int];
    let own = state.shard_index(runner.shard);
    assert(state.shard_at(runner.shard, own));
    let after = after_bumps(runner, n).state_after_bump(state);
    law_steals_half(state.queue.len(), Some(state.room(own)));
    let at = state.shards[own].tasks.len() as int;
    assert(after.shards[own].tasks[at] == state.queue[0]);
}

/// A runner that counts tasks keeps its shard.
proof fn lemma_bumps_keep_shard(runner: RunnerView, n: nat)
    ensures
        after_bumps(runner, n).shard == runner.shard,
    decreases n,
{
    if n > 0 {
        lemma_bumps_keep_shard(runner, (n - 1) as nat);
    }
}

/// A new runner's shard is empty, stands last and has a number that no shard has or gets again.
pub proof fn law_shard_added(state: StateView)
    requires
        state.wf(),
        state.next_shard < u64::MAX,
    ensures
        ({
            let after = state.shard_added();
            let id = state.next_shard as u64;
            &&& same_tickers(state, after)
            &&& after.queue == state.queue
            &&& after.shards.len() == state.shards.len() + 1
            &&& forall|i: int|
                0 <= i < state.shards.len() ==> #[trigger] after.shards[i] == state.shards[i]
            &&& after.shards.last().id == id
            &&& after.shards.last().tasks.len() == 0
            &&& forall|i: int| 0 <= i < state.shards.len() ==> (#[trigger] state.shards[i]).id != id
            &&& id < after.next_shard
        }),
{
}

/// A runner's shard that is removed is gone, and the others stand as before in their order.
pub proof fn law_shard_removed(state: StateView, id: u64)
    requires
        state.wf(),
        state.has_shard(id),
    ensures
        ({
            let after = state.shard_removed(state.shard_index(id));
            &&& same_tickers(state, after)
            &&& after.queue == state.queue
            &&& after.next_shard == state.next_shard
            &&& after.shards.len() == state.shards.len() - 1
            &&& forall|i: int| 0 <= i < after.shards.len() ==> (#[trigger] after.shards[i]).id != id
            &&& exists|own: int|
                0 <= own < state.shards.len() && (#[trigger] state.shards[own]).id == id && (
                forall|i: int|
                    0 <= i < after.shards.len() ==> #[trigger] after.shards[i] == state.shards[if i
                        < own {
                        i
                    } else {
                        i + 1
                    }])
        }),
{
    let own = state.shard_index(id);
    assert(state.shard_at(id, own));
    let after = state.shard_removed(own);
    assert(state.shards[own].id == id);
    assert forall|i: int| 0 <= i < after.shards.len() implies (#[trigger] after.shards[i]).id != id by {
        let from = if i < own { i } else { i + 1 };
        assert(after.shards[i] == state.shards[from]);
        if state.shards[from].id == id {
            assert(state.shard_at(id, from));
            state.lemma_shard_index(id, from);
        }
    }
}

} // verus!
