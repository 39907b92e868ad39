//! The scheduled tasks of an executor: none gets lost, and none is run twice.

use crate::queue::steal_count;
use crate::runner::{after_search, lemma_victim_from, search_task, victim_from, RunnerView};
use crate::state::{ShardView, StateView};
use crate::ticker::{after_drop, after_sleep, after_wake};
use std::task::Waker;
use vstd::multiset::Multiset;
use vstd::prelude::*;
use vstd::seq_lib::lemma_multiset_commutative;

verus! {

/// The tasks in `shards`.
pub open spec fn tasks_in(shards: Seq<ShardView>) -> Multiset<u64>
    decreases shards.len(),
{
    if shards.len() == 0 {
        Multiset::empty()
    } else {
        tasks_in(shards.drop_last()).add(shards.last().tasks.to_multiset())
    }
}

/// All scheduled tasks: those in the global queue and in the shards.
pub open spec fn scheduled(state: StateView) -> Multiset<u64> {
    state.queue.to_multiset().add(tasks_in(state.shards))
}

/// Other tasks in one shard take the place of those that were there.
proof fn lemma_shard_replaced(shards: Seq<ShardView>, i: int, shard: ShardView)
    requires
        0 <= i < shards.len(),
    ensures
        tasks_in(shards.update(i, shard)).add(shards[i].tasks.to_multiset()) == tasks_in(
            shards,
        ).add(shard.tasks.to_multiset()),
    decreases shards.len(),
{
    let post = shards.update(i, shard);
    if i == shards.len() - 1 {
        assert(post.drop_last() == shards.drop_last());
    } else {
        let front = shards.drop_last();
        lemma_shard_replaced(front, i, shard);
        assert(post.drop_last() == front.update(i, shard));
        assert forall|t: u64|
            tasks_in(post).add(shards[i].tasks.to_multiset()).count(t) == #[trigger] tasks_in(
                shards,
            ).add(shard.tasks.to_multiset()).count(t) by {
            assert(tasks_in(front.update(i, shard)).add(front[i].tasks.to_multiset()).count(t)
                == tasks_in(front).add(shard.tasks.to_multiset()).count(t));
        }
    }
    assert(tasks_in(post).add(shards[i].tasks.to_multiset()) =~= tasks_in(shards).add(
        shard.tasks.to_multiset(),
    ));
}

/// The tasks of a shard that is taken away are the only ones that go.
proof fn lemma_shard_taken(shards: Seq<ShardView>, i: int)
    requires
        0 <= i < shards.len(),
    ensures
        tasks_in(shards.remove(i)).add(shards[i].tasks.to_multiset()) == tasks_in(shards),
    decreases shards.len(),
{
    if i == shards.len() - 1 {
        assert(shards.remove(i) == shards.drop_last());
    } else {
        lemma_shard_taken(shards.drop_last(), i);
        assert(shards.remove(i).drop_last() == shards.drop_last().remove(i));
        assert(shards.remove(i).last() == shards.last());
    }
    assert(tasks_in(shards.remove(i)).add(shards[i].tasks.to_multiset()) =~= tasks_in(shards));
}

/// The first tasks of a sequence and the others are all of them.
proof fn lemma_split(tasks: Seq<u64>, count: int)
    requires
        0 <= count <= tasks.len(),
    ensures
        tasks.take(count).to_multiset().add(tasks.skip(count).to_multiset()) == tasks.to_multiset(),
{
    lemma_multiset_commutative(tasks.take(count), tasks.skip(count));
    assert(tasks.take(count) + tasks.skip(count) == tasks);
}

/// The first task of a sequence and the others are all of them.
pub proof fn lemma_first(tasks: Seq<u64>)
    requires
        tasks.len() > 0,
    ensures
        tasks.skip(1).to_multiset().insert(tasks[0]) == tasks.to_multiset(),
{
    broadcast use vstd::seq_lib::group_to_multiset_ensures;

    lemma_split(tasks, 1);
    assert(tasks.take(1) == Seq::<u64>::empty().push(tasks[0]));
    assert(Seq::<u64>::empty().to_multiset() =~= Multiset::empty());
    assert(tasks.take(1).to_multiset() =~= Multiset::empty().insert(tasks[0]));
    assert(tasks.skip(1).to_multiset().insert(tasks[0]) =~= tasks.to_multiset());
}

/// Scheduling a task adds it to the scheduled tasks, and nothing else.
pub proof fn law_schedule_adds_task(state: StateView, task: u64)
    ensures
        scheduled(state.pushed(task).after_notify()) == scheduled(state).insert(task),
{
    broadcast use vstd::seq_lib::group_to_multiset_ensures;

    assert(scheduled(state.pushed(task)) =~= scheduled(state).insert(task));
}

/// Taking the first task of the global queue takes it off the scheduled tasks, and nothing else.
pub proof fn law_pop_takes_task(state: StateView)
    requires
        state.queue.len() > 0,
    ensures
        scheduled(state.popped()).insert(state.queue[0]) == scheduled(state),
{
    lemma_first(state.queue);
    assert(scheduled(state.popped()).insert(state.queue[0]) =~= scheduled(state));
}

/// Stealing moves tasks: none is lost and none is doubled.
pub proof fn law_steal_keeps_tasks(state: StateView, from: int, to: int)
    requires
        state.wf(),
        0 <= to < state.shards.len(),
    ensures
        scheduled(state.stolen_global(to)) == scheduled(state),
        0 <= from < state.shards.len() && from != to ==> scheduled(state.stolen_shard(from, to))
            == scheduled(state),
{
    let dest = state.shards[to];
    let count = steal_count(state.queue.len(), Some(state.room(to))) as int;
    let moved = state.queue.take(count);
    lemma_split(state.queue, count);
    lemma_multiset_commutative(dest.tasks, moved);
    lemma_shard_replaced(state.shards, to, ShardView { tasks: dest.tasks + moved, ..dest });
    assert(scheduled(state.stolen_global(to)) =~= scheduled(state)) by {
        assert forall|t: u64| #[trigger]
            scheduled(state.stolen_global(to)).count(t) == scheduled(state).count(t) by {
            let before = tasks_in(state.shards);
            let after = tasks_in(state.stolen_global(to).shards);
            assert(after.add(dest.tasks.to_multiset()).count(t) == before.add(
                (dest.tasks + moved).to_multiset(),
            ).count(t));
            assert(moved.to_multiset().add(state.queue.skip(count).to_multiset()).count(t)
                == state.queue.to_multiset().count(t));
        }
    }

    if 0 <= from < state.shards.len() && from != to {
        let src = state.shards[from];
        let count = steal_count(src.tasks.len(), Some(state.room(to))) as int;
        let moved = src.tasks.take(count);
        let left = ShardView { tasks: src.tasks.skip(count), ..src };
        let mid = state.with_shard(from, src.tasks.skip(count));
        lemma_split(src.tasks, count);
        lemma_multiset_commutative(dest.tasks, moved);
        lemma_shard_replaced(state.shards, from, left);
        lemma_shard_replaced(mid.shards, to, ShardView { tasks: dest.tasks + moved, ..dest });
        assert(scheduled(state.stolen_shard(from, to)) =~= scheduled(state)) by {
            assert forall|t: u64| #[trigger]
                scheduled(state.stolen_shard(from, to)).count(t) == scheduled(state).count(t) by {
                let before = tasks_in(state.shards);
                let between = tasks_in(mid.shards);
                let after = tasks_in(state.stolen_shard(from, to).shards);
                assert(between.add(src.tasks.to_multiset()).count(t) == before.add(
                    left.tasks.to_multiset(),
                ).count(t));
                assert(after.add(dest.tasks.to_multiset()).count(t) == between.add(
                    (dest.tasks + moved).to_multiset(),
                ).count(t));
                assert(moved.to_multiset().add(left.tasks.to_multiset()).count(t)
                    == src.tasks.to_multiset().count(t));
            }
        }
    }
}

/// Taking the first task of a shard takes it off the scheduled tasks, and nothing else.
pub proof fn law_shard_pop_takes_task(state: StateView, i: int)
    requires
        0 <= i < state.shards.len(),
        state.shards[i].tasks.len() > 0,
    ensures
        scheduled(state.shard_popped(i)).insert(state.shards[i].tasks[0]) == scheduled(state),
{
    let shard = state.shards[i];
    let left = ShardView { tasks: shard.tasks.skip(1), ..shard };
    lemma_first(shard.tasks);
    lemma_shard_replaced(state.shards, i, left);
    assert(scheduled(state.shard_popped(i)).insert(shard.tasks[0]) =~= scheduled(state)) by {
        assert forall|t: u64|
            scheduled(state.shard_popped(i)).insert(shard.tasks[0]).count(t)
                == #[trigger] scheduled(state).count(t) by {
            assert(tasks_in(state.shard_popped(i).shards).add(shard.tasks.to_multiset()).count(t)
                == tasks_in(state.shards).add(left.tasks.to_multiset()).count(t));
            assert(left.tasks.to_multiset().insert(shard.tasks[0]).count(t)
                == shard.tasks.to_multiset().count(t));
        }
    }
}

/// A runner that looks for a task takes the one that it finds off the scheduled tasks, and nothing
/// else, wherever it steals.
pub proof fn law_search_takes_task(state: StateView, own: int, start: int)
    requires
        state.wf(),
        0 <= own < state.shards.len(),
        0 <= start < state.shards.len(),
    ensures
        match search_task(state, own, start) {
            Some(task) => scheduled(after_search(state, own, start)).insert(task) == scheduled(
                state,
            ),
            None => scheduled(after_search(state, own, start)) == scheduled(state),
        },
{
    if state.shards[own].tasks.len() > 0 {
        law_shard_pop_takes_task(state, own);
    } else if state.queue.len() > 0 {
        law_pop_takes_task(state);
        assert(state.popped().wf());
        law_steal_keeps_tasks(state.popped(), own, own);
    } else {
        lemma_victim_from(state, own, start, 0);
        if let Some(i) = victim_from(state, own, start, 0) {
            let stolen = state.stolen_shard(i, own);
            law_steal_keeps_tasks(state, i, own);
            assert(stolen.shards[own].tasks[0] == state.shards[i].tasks[0]);
            law_shard_pop_takes_task(stolen, own);
        }
    }
}

/// Tickers that are notified, go to sleep, wake up or go away leave the scheduled tasks alone.
pub proof fn law_tickers_leave_tasks(state: StateView, sleeping: Option<u64>, waker: Waker)
    ensures
        scheduled(state.after_notify()) == scheduled(state),
        scheduled(after_sleep(sleeping, state, waker)) == scheduled(state),
        scheduled(after_wake(sleeping, state)) == scheduled(state),
        scheduled(after_drop(sleeping, state)) == scheduled(state),
{
}

/// What a runner does once it has found a task leaves the other scheduled tasks alone.
pub proof fn law_dispatch_keeps_tasks(runner: RunnerView, state: StateView)
    ensures
        scheduled(runner.state_after_dispatch(state)) == scheduled(state),
{
}

/// A runner that counts a task leaves the scheduled tasks alone, also when it steals.
pub proof fn law_bump_keeps_tasks(runner: RunnerView, state: StateView)
    requires
        state.wf(),
        state.has_shard(runner.shard),
    ensures
        scheduled(runner.state_after_bump(state)) == scheduled(state),
{
    let own = state.shard_index(runner.shard);
    assert(state.shard_at(runner.shard, own));
    law_steal_keeps_tasks(state, own, own);
}

/// A new runner brings no tasks.
pub proof fn law_new_runner_keeps_tasks(state: StateView)
    ensures
        scheduled(state.shard_added()) == scheduled(state),
{
    let post = state.shard_added();
    assert(post.shards.drop_last() == state.shards);
    assert(post.shards.last().tasks.to_multiset() =~= Multiset::empty()) by {
        broadcast use vstd::seq_lib::group_to_multiset_ensures;

    }
    assert(scheduled(post) =~= scheduled(state));
}

/// A runner that goes away takes the tasks of its shard off the scheduled tasks, and nothing else.
pub proof fn law_runner_drop_takes_shard(state: StateView, own: int)
    requires
        0 <= own < state.shards.len(),
    ensures
        scheduled(state.shard_removed(own)).add(state.shards[own].tasks.to_multiset()) == scheduled(
            state,
        ),
{
    lemma_shard_taken(state.shards, own);
    assert(scheduled(state.shard_removed(own)).add(state.shards[own].tasks.to_multiset())
        =~= scheduled(state));
}

} // verus!
