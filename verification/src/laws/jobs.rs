//! What the operations of an executor hand out and leave: the runnable, the waker, and everything
//! that is kept.

use crate::executor::{lemma_found_takes_task, ExecutorView, Job, LeavingView, RunStep};
use crate::laws::stealing::{
    all_empty, law_idle, law_search, law_shard_index, law_shard_removed, picks, same_tickers,
};
use crate::laws::waking::{
    all_wait, falls_asleep, flag_is_right, is_awake, is_waiting, law_drop_wakes, law_find_wakes,
    law_flag, law_schedule_wakes, law_sleep, law_state_notify, rouses, same_queues,
};
use crate::runner::{after_search, found, lemma_after_search, search_task, RunnerView};
use crate::scheduled::{law_pop_takes_task, law_tickers_leave_tasks, scheduled};
use crate::state::StateView;
use crate::ticker::{after_wake, can_sleep, is_registered, Tick};
use std::task::Waker;
use vstd::prelude::*;

verus! {

/// `runnable` is the one that has number `task`, and the only one that is kept no more.
pub open spec fn hands_out<R>(
    before: ExecutorView<R>,
    after: ExecutorView<R>,
    task: u64,
    runnable: R,
) -> bool {
    &&& before.runnables.contains_key(task)
    &&& before.runnables[task] == runnable
    &&& forall|t: u64| #[trigger]
        after.runnables.contains_key(t) <==> before.runnables.contains_key(t) && t != task
    &&& keeps_runnables(before, after)
}

/// The runnables that are still kept have the numbers that they had, and no number is used twice.
pub open spec fn keeps_runnables<R>(before: ExecutorView<R>, after: ExecutorView<R>) -> bool {
    &&& forall|t: u64| #[trigger]
        after.runnables.contains_key(t) && t < before.next_task ==> before.runnables.contains_key(t)
            && after.runnables[t] == before.runnables[t]
    &&& after.next_task >= before.next_task
}

/// The executor keeps what it kept.
pub open spec fn same_runnables<R>(before: ExecutorView<R>, after: ExecutorView<R>) -> bool {
    after.runnables == before.runnables && after.next_task == before.next_task
}

/// A ticker other than `own` is woken exactly if others sleep and all of these wait; `waker` is then
/// that of the latest, which alone is notified.
pub open spec fn wakes_next(
    before: StateView,
    after: StateView,
    own: Option<u64>,
    waker: Option<Waker>,
) -> bool {
    &&& rouses(before.sleepers, after.sleepers, own, waker)
    &&& waker is Some <==> all_wait(before.sleepers, own)
    &&& flag_is_right(after)
    &&& after.notified
    &&& after.sleepers.id_gen == before.sleepers.id_gen
}

/// A worker that had the ID `sleeping`, if it slept, has gone to sleep under the ID `id`, and waits to
/// be woken by `waker`.
pub open spec fn beds_down(
    before: StateView,
    after: StateView,
    sleeping: Option<u64>,
    id: Option<u64>,
    waker: Waker,
) -> bool {
    &&& id matches Some(id)
    &&& falls_asleep(before.sleepers, after.sleepers, id, waker)
    &&& match sleeping {
        Some(own) => id == own,
        None => is_awake(before.sleepers, id) && before.sleepers.id_gen <= id,
    }
    &&& id < after.sleepers.id_gen
    &&& before.sleepers.id_gen <= after.sleepers.id_gen
    &&& flag_is_right(after)
    &&& same_queues(before, after)
}

/// A runnable that is scheduled, also when it is spawned, gets a number that no other has, stands
/// last in the global queue, and a sleeping ticker is woken for it if all wait.
pub proof fn law_schedule<R>(ex: ExecutorView<R>, runnable: R)
    requires
        ex.wf(),
        ex.next_task < u64::MAX,
    ensures
        ({
            let after = ex.after_schedule(runnable);
            let task = ex.next_task as u64;
            &&& !ex.runnables.contains_key(task)
            &&& after.runnables.contains_key(task)
            &&& after.runnables[task] == runnable
            &&& forall|t: u64|
                t != task ==> (#[trigger] after.runnables.contains_key(t)
                    <==> ex.runnables.contains_key(t))
            &&& keeps_runnables(ex, after)
            &&& task < after.next_task
            &&& after.state.queue == ex.state.queue.push(task)
            &&& after.state.shards == ex.state.shards
            &&& after.state.next_shard == ex.state.next_shard
            &&& wakes_next(ex.state, after.state, None, ex.state.notify_waker())
        }),
{
    law_schedule_wakes(ex.state, ex.next_task as u64);
}

/// An attempt to run a task hands out the first one of the global queue, together with the waker of
/// the next ticker if all that sleep wait. It finds none exactly if the global queue is empty, and
/// changes nothing then.
pub proof fn law_try_tick<R>(ex: ExecutorView<R>, job: Option<Job<R>>, after: ExecutorView<R>)
    requires
        ex.wf(),
        ex.try_ticked(job, after),
    ensures
        match job {
            Some(job) => exists|task: u64| #[trigger]
                hands_out(ex, after, task, job.runnable) && ex.state.queue == seq![task]
                    + after.state.queue && after.state.shards == ex.state.shards
                    && after.state.next_shard == ex.state.next_shard && wakes_next(
                    ex.state,
                    after.state,
                    None,
                    job.waker,
                ),
            None => ex.state.queue.len() == 0 && after == ex,
        },
{
    if let Some(job) = job {
        let task = ex.state.queue[0];
        let popped = ex.state.popped();
        law_state_notify(popped);
        law_pop_takes_task(ex.state);
        ex.lemma_without_wf(after.state, task);
        assert(ex.state.queue =~= seq![task] + after.state.queue);
        assert(hands_out(ex, after, task, job.runnable));
    }
}

/// A ticker that looks for a task gets the first one of the global queue, together with the waker of
/// the next ticker if others sleep and all of these wait, and is awake then. It finds none exactly if
/// the global queue is empty, and then it waits to be woken by `waker`.
pub proof fn law_tick<R>(
    ex: ExecutorView<R>,
    sleeping: Option<u64>,
    waker: Waker,
    job: Option<Job<R>>,
    sleeping_after: Option<u64>,
    after: ExecutorView<R>,
)
    requires
        ex.wf(),
        is_registered(sleeping, ex.state),
        ex.state.queue.len() == 0 ==> can_sleep(sleeping, ex.state),
        ex.ticked(sleeping, waker, job, sleeping_after, after),
    ensures
        match job {
            Some(job) => {
                &&& sleeping_after is None
                &&& sleeping matches Some(id) ==> is_awake(after.state.sleepers, id)
                &&& exists|task: u64| #[trigger]
                    hands_out(ex, after, task, job.runnable) && ex.state.queue == seq![task]
                        + after.state.queue && after.state.shards == ex.state.shards
                        && after.state.next_shard == ex.state.next_shard && wakes_next(
                        ex.state,
                        after.state,
                        sleeping,
                        job.waker,
                    )
            },
            None => {
                &&& ex.state.queue.len() == 0
                &&& same_runnables(ex, after)
                &&& beds_down(ex.state, after.state, sleeping, sleeping_after, waker)
            },
        },
{
    match job {
        Some(job) => {
            let task = ex.state.queue[0];
            let popped = ex.state.popped();
            law_find_wakes(sleeping, popped);
            law_pop_takes_task(ex.state);
            law_tickers_leave_tasks(popped, sleeping, waker);
            law_tickers_leave_tasks(after_wake(sleeping, popped), sleeping, waker);
            ex.lemma_without_wf(after.state, task);
            assert(ex.state.queue =~= seq![task] + after.state.queue);
            assert(hands_out(ex, after, task, job.runnable));
        },
        None => {
            law_sleep(sleeping, ex.state, waker);
        },
    }
}

/// A runner that finds a task is awake then, keeps its shard and its counter, and another ticker is
/// woken if others sleep and all of these wait.
pub proof fn law_found(
    runner: RunnerView,
    state: StateView,
    start: int,
    tick: Tick,
    runner_after: RunnerView,
    state_after: StateView,
)
    requires
        state.wf(),
        runner.attached(state),
        0 <= start < state.shards.len(),
        found(runner, state, start, tick, runner_after, state_after),
    ensures
        runner_after.sleeping is None,
        runner_after.shard == runner.shard,
        runner_after.ticks == runner.ticks,
        runner.sleeping matches Some(id) ==> is_awake(state_after.sleepers, id),
        wakes_next(state, state_after, runner.sleeping, tick.waker),
        exists|own: int|
            0 <= own < state.shards.len() && (#[trigger] state.shards[own]).id == runner.shard
                && picks(state, state_after, own, start, tick.task),
{
    let own = state.shard_index(runner.shard);
    assert(state.shard_at(runner.shard, own));
    let searched = after_search(state, own, start);
    law_search(state, own, start);
    lemma_after_search(state, own, start);
    law_find_wakes(runner.sleeping, searched);
    assert(state.shards[own].id == runner.shard);
    let task = search_task(state, own, start)->0;
    assert(picks(state, searched, own, start, task));
    assert(state_after.shards == searched.shards && state_after.queue == searched.queue);
    if state.shards[own].tasks.len() == 0 && state.queue.len() == 0 {
        let v = choose|v: int| #[trigger]
            crate::laws::stealing::is_nearest(state, own, start, v)
                && crate::laws::stealing::robs_at(state, searched, own, v, task);
        assert(crate::laws::stealing::robs_at(state, state_after, own, v, task));
    }
    assert(picks(state, state_after, own, start, tick.task));
}

/// A runner that wakes up for a task hands out that task together with the waker of the next ticker
/// if others sleep and all of these wait. It leaves the queues, its shard and its counter alone.
pub proof fn law_dispatch(runner: RunnerView, state: StateView, task: u64)
    requires
        state.wf(),
        runner.attached(state),
    ensures
        ({
            let after = runner.state_after_dispatch(state);
            let tick = runner.tick(state, task);
            &&& tick.task == task
            &&& wakes_next(state, after, runner.sleeping, tick.waker)
            &&& same_queues(state, after)
            &&& runner.sleeping matches Some(id) ==> is_awake(after.sleepers, id)
            &&& runner.after_dispatch().sleeping is None
            &&& runner.after_dispatch().shard == runner.shard
            &&& runner.after_dispatch().ticks == runner.ticks
        }),
{
    law_find_wakes(runner.sleeping, state);
}

/// What happens to the queues and the tickers alone leaves the runnables alone.
pub proof fn law_with_state<R>(ex: ExecutorView<R>, state: StateView)
    ensures
        same_runnables(ex, ex.with_state(state)),
        ex.with_state(state).state == state,
{
}

/// A runner yields exactly at the end of its batch, and nothing changes then. Otherwise it gets the
/// first task of its own shard, else of the global queue, else of another shard, together with the
/// waker of the next ticker if others sleep and all of these wait. It finds none exactly if all queues
/// are empty, and then it waits to be woken by `waker`.
pub proof fn law_run<R>(
    ex: ExecutorView<R>,
    runner: RunnerView,
    left: nat,
    waker: Waker,
    step: RunStep<R>,
    runner_after: RunnerView,
    left_after: nat,
    after: ExecutorView<R>,
)
    requires
        ex.wf(),
        runner.attached(ex.state),
        ex.state.is_idle() ==> can_sleep(runner.sleeping, ex.state),
        ex.ran(runner, left, waker, step, runner_after, left_after, after),
    ensures
        match step {
            RunStep::Yield => {
                &&& left == 0
                &&& after == ex
                &&& runner_after == runner
                &&& left_after == 0
            },
            RunStep::Wait => {
                &&& left > 0
                &&& left_after == left
                &&& all_empty(ex.state)
                &&& same_runnables(ex, after)
                &&& beds_down(ex.state, after.state, runner.sleeping, runner_after.sleeping, waker)
                &&& runner_after.shard == runner.shard
                &&& runner_after.ticks == runner.ticks
            },
            RunStep::Run(found_job) => {
                &&& left > 0
                &&& left_after == left - 1
                &&& runner_after.sleeping is None
                &&& runner_after.shard == runner.shard
                &&& runner_after.ticks == runner.ticks
                &&& runner.sleeping matches Some(id) ==> is_awake(after.state.sleepers, id)
                &&& wakes_next(ex.state, after.state, runner.sleeping, found_job@.waker)
                &&& exists|own: int, start: int, task: u64|
                    0 <= own < ex.state.shards.len() && ex.state.shards[own].id == runner.shard && 0
                        <= start < ex.state.shards.len() && #[trigger] picks(
                        ex.state,
                        after.state,
                        own,
                        start,
                        task,
                    ) && hands_out(ex, after, task, found_job@.runnable)
            },
        },
{
    law_idle(ex.state);
    match step {
        RunStep::Yield => {},
        RunStep::Wait => {
            law_sleep(runner.sleeping, ex.state, waker);
        },
        RunStep::Run(found_job) => {
            let (start, tick) = choose|start: int, tick: Tick|
                0 <= start < ex.state.shards.len() && #[trigger] found(
                    runner,
                    ex.state,
                    start,
                    tick,
                    runner_after,
                    after.state,
                ) && found_job@ == ex.job(tick) && after == ex.without(after.state, tick.task);
            law_found(runner, ex.state, start, tick, runner_after, after.state);
            lemma_found_takes_task(runner, ex.state, start, tick, runner_after, after.state);
            let own = choose|own: int|
                0 <= own < ex.state.shards.len() && (#[trigger] ex.state.shards[own]).id
                    == runner.shard && picks(ex.state, after.state, own, start, tick.task);
            assert(scheduled(ex.state).count(tick.task) > 0);
            assert(ex.runnables.contains_key(tick.task));
            assert(hands_out(ex, after, tick.task, found_job@.runnable));
            assert(picks(ex.state, after.state, own, start, tick.task));
        },
    }
}

/// A runner that is taken out takes along the runnables of its shard, in their order, and nothing
/// else.
pub proof fn law_drop_runner<R>(ex: ExecutorView<R>, runner: RunnerView, own: int)
    requires
        ex.wf(),
        0 <= own < ex.state.shards.len(),
        ex.state.shards[own].id == runner.shard,
    ensures
        ({
            let after = ex.without_runner(runner);
            let tasks = ex.state.shards[own].tasks;
            let taken = ex.runnables_of(tasks);
            &&& own == ex.state.shard_index(runner.shard)
            &&& taken.len() == tasks.len()
            &&& forall|i: int|
                0 <= i < tasks.len() ==> ex.runnables.contains_key(#[trigger] tasks[i]) && taken[i]
                    == ex.runnables[tasks[i]]
            &&& forall|t: u64| #[trigger]
                after.runnables.contains_key(t) <==> ex.runnables.contains_key(t)
                    && !tasks.contains(t)
            &&& keeps_runnables(ex, after)
            &&& after.next_task == ex.next_task
            &&& same_tickers(ex.state, after.state)
            &&& after.state.queue == ex.state.queue
            &&& after.state.next_shard == ex.state.next_shard
            &&& after.state.shards.len() == ex.state.shards.len() - 1
            &&& forall|i: int|
                0 <= i < after.state.shards.len() ==> #[trigger] after.state.shards[i]
                    == ex.state.shards[if i < own {
                    i
                } else {
                    i + 1
                }]
        }),
{
    law_shard_index(ex.state, runner.shard);
    law_shard_removed(ex.state, runner.shard);
    let tasks = ex.state.shards[own].tasks;
    crate::scheduled::law_runner_drop_takes_shard(ex.state, own);
    assert forall|i: int| 0 <= i < tasks.len() implies ex.runnables.contains_key(
        #[trigger] tasks[i],
    ) by {
        broadcast use vstd::seq_lib::group_to_multiset_ensures;

        assert(tasks.contains(tasks[i]));
        assert(tasks.to_multiset().count(tasks[i]) > 0);
        assert(scheduled(ex.state.shard_removed(own)).add(tasks.to_multiset()).count(tasks[i])
            == scheduled(ex.state).count(tasks[i]));
        assert(scheduled(ex.state).count(tasks[i]) > 0);
    }
}

/// While a ticker is notified, or none sleeps, scheduling runnables concerns no ticker.
proof fn lemma_quiet<R>(ex: ExecutorView<R>, runnables: Seq<R>)
    requires
        ex.state.notified || runnables.len() == 0,
    ensures
        ex.after_schedule_all(runnables).state.sleepers == ex.state.sleepers,
        ex.after_schedule_all(runnables).state.notified == ex.state.notified,
        ex.after_schedule_all(runnables).state.next_shard == ex.state.next_shard,
    decreases runnables.len(),
{
    if runnables.len() > 0 {
        lemma_quiet(ex, runnables.drop_last());
    }
}

/// The runnables `runnables` have been scheduled: they stand behind all others in the global queue,
/// in their order, and nothing else has changed in the queues.
pub open spec fn gives_back<R>(
    before: ExecutorView<R>,
    after: ExecutorView<R>,
    runnables: Seq<R>,
) -> bool {
    let len = before.state.queue.len() as int;
    &&& after.state.queue.len() == len + runnables.len()
    &&& forall|i: int| 0 <= i < len ==> #[trigger] after.state.queue[i] == before.state.queue[i]
    &&& forall|i: int|
        len <= i < after.state.queue.len() ==> {
            let task = #[trigger] after.state.queue[i];
            &&& !before.runnables.contains_key(task)
            &&& after.runnables.contains_key(task)
            &&& after.runnables[task] == runnables[i - len]
        }
    &&& forall|t: u64| #[trigger]
        before.runnables.contains_key(t) ==> after.runnables.contains_key(t) && after.runnables[t]
            == before.runnables[t]
    &&& after.next_task == before.next_task + runnables.len()
    &&& after.state.shards == before.state.shards
    &&& after.state.next_shard == before.state.next_shard
}

/// A leaving runner gives its runnables back in their order. It stops after the first one if a ticker
/// has to be woken for it, which is so exactly if some sleep and all of these wait. Otherwise it gives
/// all of them back and its ticker goes away: if that was notified, another one is woken in its place
/// if others sleep and all of these wait.
pub proof fn law_leave<R>(
    ex: ExecutorView<R>,
    leaving: LeavingView<R>,
    waker: Option<Waker>,
    leaving_after: LeavingView<R>,
    after: ExecutorView<R>,
)
    requires
        ex.wf(),
        is_registered(leaving.sleeping, ex.state),
        ex.next_task + leaving.runnables.len() <= u64::MAX,
        ex.left(leaving, waker, leaving_after, after),
    ensures
        if leaving.runnables.len() > 0 && all_wait(ex.state.sleepers, None) {
            &&& waker is Some
            &&& wakes_next(ex.state, after.state, None, waker)
            &&& leaving_after.sleeping == leaving.sleeping
            &&& leaving.runnables == seq![leaving.runnables[0]] + leaving_after.runnables
            &&& gives_back(ex, after, seq![leaving.runnables[0]])
        } else {
            &&& gives_back(ex, after, leaving.runnables)
            &&& leaving_after.runnables.len() == 0
            &&& leaving_after.sleeping is None
            &&& leaving.sleeping matches Some(id) ==> is_awake(after.state.sleepers, id)
            &&& rouses(ex.state.sleepers, after.state.sleepers, leaving.sleeping, waker)
            &&& waker is Some <==> {
                &&& leaving.sleeping matches Some(id)
                &&& !is_waiting(ex.state.sleepers, id)
                &&& all_wait(ex.state.sleepers, leaving.sleeping)
            }
            &&& flag_is_right(after.state)
        },
{
    law_flag(ex.state);
    if leaving.runnables.len() > 0 && all_wait(ex.state.sleepers, None) {
        let runnable = leaving.runnables[0];
        law_schedule(ex, runnable);
        assert(leaving.runnables =~= seq![runnable] + leaving_after.runnables);
    } else {
        let returned = ex.after_schedule_all(leaving.runnables);
        lemma_quiet(ex, leaving.runnables);
        crate::laws::law_reschedule_keeps_order(ex, leaving.runnables);
        law_drop_wakes(leaving.sleeping, returned.state);
        let len = ex.state.queue.len() as int;
        assert forall|i: int| len <= i < after.state.queue.len() implies ({
            let task = #[trigger] after.state.queue[i];
            &&& !ex.runnables.contains_key(task)
            &&& after.runnables.contains_key(task)
            &&& after.runnables[task] == leaving.runnables[i - len]
        }) by {
            let k = i - len;
            assert(after.state.queue[i] == (ex.next_task + k) as u64);
        }
    }
}

} // verus!
