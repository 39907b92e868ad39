//! Laws that hold across the operations of an executor.

pub mod jobs;
pub mod stealing;
pub mod waking;

use crate::executor::{
    lemma_found_takes_task, ExecutorView, Found, Job, LeavingView, RunStep, BATCH_SIZE,
};
use crate::queue::steal_count;
use crate::runner::{
    after_search, found, lemma_after_search, lemma_victim_from, RunnerView, FAIRNESS_INTERVAL,
};
use crate::scheduled::{law_pop_takes_task, scheduled};
use crate::sleepers::SleepersView;
use crate::state::StateView;
use crate::ticker::{
    after_drop, after_sleep, after_wake, asleep, can_sleep, drop_waker, is_registered,
    lemma_asleep, passes_on, Tick,
};
use std::task::Waker;
use vstd::prelude::*;

verus! {

/// A sleeping ticker is notified.
pub open spec fn some_notified(sleepers: SleepersView) -> bool {
    exists|id: u64| #[trigger] sleepers.ids.contains(id) && !sleepers.waits(id)
}

/// The list of sleepers tells rightly whether a sleeping ticker is notified or no ticker sleeps.
pub proof fn law_is_notified(sleepers: SleepersView)
    requires
        sleepers.wf(),
    ensures
        sleepers.is_notified() <==> sleepers.ids.is_empty() || some_notified(sleepers),
{
    let waiting = sleepers.wakers.map_values(|entry: (u64, Waker)| entry.0);
    assert(waiting.no_duplicates());
    waiting.unique_seq_to_set();
    assert forall|id: u64| waiting.to_set().contains(id) <==> #[trigger] sleepers.waits(id) by {
        if waiting.to_set().contains(id) {
            let i = waiting.index_of(id);
            assert(sleepers.waits_at(id, i));
        }
        if sleepers.waits(id) {
            let i = sleepers.position(id);
            assert(sleepers.waits_at(id, i));
            assert(waiting[i] == id);
        }
    }
    assert(waiting.to_set().subset_of(sleepers.ids)) by {
        assert forall|id: u64| waiting.to_set().contains(id) implies sleepers.ids.contains(id) by {
            assert(sleepers.waits(id));
            assert(sleepers.waits_at(id, sleepers.position(id)));
        }
    }
    vstd::set_lib::lemma_len_subset(waiting.to_set(), sleepers.ids);
    if some_notified(sleepers) {
        let id = choose|id: u64| #[trigger] sleepers.ids.contains(id) && !sleepers.waits(id);
        assert(!waiting.to_set().contains(id));
        assert(waiting.to_set().subset_of(sleepers.ids.remove(id)));
        vstd::set_lib::lemma_len_subset(waiting.to_set(), sleepers.ids.remove(id));
    } else if sleepers.count > sleepers.wakers.len() {
        assert(waiting.to_set() =~= sleepers.ids) by {
            assert forall|id: u64| sleepers.ids.contains(id) implies waiting.to_set().contains(
                id,
            ) by {
                assert(sleepers.waits(id));
            }
        }
    }
    assert(sleepers.ids.is_empty() <==> sleepers.ids.len() == 0) by {
        if sleepers.ids.len() == 0 {
            sleepers.ids.lemma_len0_is_empty();
        }
    }
}

/// The flag is set exactly if a sleeping ticker is notified or no ticker sleeps.
pub proof fn law_notified_flag(state: StateView)
    requires
        state.wf(),
    ensures
        state.notified <==> state.sleepers.ids.is_empty() || some_notified(state.sleepers),
{
    law_is_notified(state.sleepers);
}

/// An ID that is handed out belongs to no other sleeping ticker.
pub proof fn law_fresh_id(sleepers: SleepersView)
    requires
        sleepers.wf(),
        sleepers.id_gen <= u64::MAX,
    ensures
        !sleepers.ids.contains(sleepers.id_gen as u64),
        !sleepers.waits(sleepers.id_gen as u64),
{
    let id = sleepers.id_gen as u64;
    if sleepers.waits(id) {
        assert(sleepers.waits_at(id, sleepers.position(id)));
    }
}

/// A ticker that goes to sleep and wakes up again leaves nothing behind but a used-up ID.
pub proof fn law_wake_undoes_sleep(state: StateView, waker: Waker)
    requires
        state.wf(),
        state.sleepers.id_gen <= u64::MAX,
    ensures
        after_wake(asleep(None, state), after_sleep(None, state, waker)) == (StateView {
            sleepers: SleepersView { id_gen: state.sleepers.id_gen + 1, ..state.sleepers },
            ..state
        }),
{
    let pre = state.sleepers;
    let id = pre.id_gen as u64;
    let mid = pre.inserted(waker);
    law_fresh_id(pre);
    pre.lemma_inserted_wf(waker);
    assert(mid.waits_at(id, pre.wakers.len() as int));
    assert(mid.position(id) == pre.wakers.len()) by {
        let k = mid.position(id);
        assert(mid.waits_at(id, k));
        if k < pre.wakers.len() {
            assert(pre.waits_at(id, k));
        }
    }
    assert(mid.removed(id).wakers =~= pre.wakers);
    assert(mid.removed(id).ids =~= pre.ids);
    assert(mid.removed(id) =~= (SleepersView { id_gen: pre.id_gen + 1, ..pre }));
}

/// Once a ticker is notified, further notifications wake nobody.
pub proof fn law_notify_once(state: StateView)
    ensures
        state.after_notify().notify_waker() is None,
        state.after_notify().after_notify() == state.after_notify(),
{
}

/// A notification picks a ticker that slept without being notified, hands out its waker and leaves
/// it asleep but notified.
pub proof fn law_notify_picks_sleeper(state: StateView)
    requires
        state.wf(),
        !state.notified,
    ensures
        exists|id: u64| #[trigger]
            state.sleepers.ids.contains(id) && state.sleepers.waits(id)
                && state.notify_waker() == Some(
                state.sleepers.wakers[state.sleepers.position(id)].1,
            ) && state.after_notify().sleepers.ids.contains(id)
                && !state.after_notify().sleepers.waits(id),
{
    state.lemma_notify();
    state.sleepers.lemma_waiting_sleep();
    let pre = state.sleepers;
    let post = state.after_notify().sleepers;
    let last = pre.wakers.len() - 1;
    let id = pre.wakers[last].0;
    assert(pre.waits_at(id, last));
    assert(pre.position(id) == last) by {
        let k = pre.position(id);
        assert(pre.waits_at(id, k));
        if k < last {
            assert(pre.wakers[k].0 != pre.wakers[last].0);
        }
    }
    if post.waits(id) {
        let k = post.position(id);
        assert(post.waits_at(id, k));
        assert(pre.wakers[k].0 != pre.wakers[last].0);
    }
    assert(pre.ids.contains(id));
}

/// A notified ticker that goes away passes its notification on: the flag stays set, and another
/// ticker is woken exactly if one sleeps and none of the others is notified.
pub proof fn law_drop_passes_notification_on(state: StateView, sleeping: Option<u64>)
    requires
        state.wf(),
        is_registered(sleeping, state),
        passes_on(sleeping, state),
    ensures
        after_drop(sleeping, state).notified,
        drop_waker(sleeping, state) is Some <==> !after_wake(
            sleeping,
            state,
        ).sleepers.ids.is_empty() && !some_notified(after_wake(sleeping, state).sleepers),
{
    let woken = after_wake(sleeping, state);
    state.sleepers.lemma_removed_wf(sleeping->0);
    woken.lemma_notify();
    law_notified_flag(woken);
}

/// No wake-up is lost: while there is a task in the global queue, a sleeping ticker is notified or
/// no ticker sleeps.
pub open spec fn is_alert(state: StateView) -> bool {
    state.queue.len() > 0 ==> state.notified
}

/// Scheduling a task alerts the executor.
pub proof fn law_schedule_alerts(state: StateView, task: u64)
    requires
        state.wf(),
    ensures
        is_alert(state.pushed(task).after_notify()),
{
}

/// A ticker that looks for a task in the global queue keeps the executor alert: if there is a task,
/// it takes it and another ticker is notified, and if there is none, it goes to sleep.
pub proof fn law_tick_keeps_alert(state: StateView, sleeping: Option<u64>, waker: Waker)
    requires
        state.wf(),
        is_registered(sleeping, state),
    ensures
        state.queue.len() > 0 ==> is_alert(after_wake(sleeping, state.popped()).after_notify()),
        state.queue.len() > 0 ==> is_alert(state.popped().after_notify()),
        state.queue.len() == 0 ==> is_alert(after_sleep(sleeping, state, waker)),
{
}

/// A ticker that goes away keeps the executor alert.
pub proof fn law_drop_keeps_alert(state: StateView, sleeping: Option<u64>)
    requires
        state.wf(),
        is_registered(sleeping, state),
        is_alert(state),
    ensures
        is_alert(after_drop(sleeping, state)),
{
    if let Some(id) = sleeping {
        let woken = after_wake(sleeping, state);
        state.sleepers.lemma_removed_wf(id);
        state.sleepers.lemma_waiting_sleep();
        if passes_on(sleeping, state) {
            woken.lemma_notify();
        } else {
            assert(state.sleepers.waits_at(id, state.sleepers.position(id)));
        }
    }
}

/// A runner that looks for a task keeps the executor alert.
pub proof fn law_run_keeps_alert(
    runner: RunnerView,
    state: StateView,
    start: int,
    tick: Tick,
    runner_after: RunnerView,
    state_after: StateView,
    waker: Waker,
)
    requires
        state.wf(),
        runner.attached(state),
        0 <= start < state.shards.len(),
    ensures
        found(runner, state, start, tick, runner_after, state_after) ==> is_alert(state_after),
        state.is_idle() ==> is_alert(after_sleep(runner.sleeping, state, waker)),
{
}

/// A runner that counts a task keeps the executor alert.
pub proof fn law_bump_keeps_alert(runner: RunnerView, state: StateView)
    requires
        state.wf(),
        runner.attached(state),
        is_alert(state),
    ensures
        is_alert(runner.state_after_bump(state)),
{
}

/// A runner that comes, or whose shard goes, keeps the executor alert.
pub proof fn law_runners_keep_alert(runner: RunnerView, state: StateView)
    requires
        is_alert(state),
    ensures
        is_alert(state.shard_added()),
        is_alert(state.shard_removed(state.shard_index(runner.shard))),
{
}

/// What scheduling runnables one after the other leaves as it is, and what it does to the queue:
/// each gets the next number and stands behind all others.
pub proof fn law_reschedule_keeps_order<R>(ex: ExecutorView<R>, runnables: Seq<R>)
    requires
        ex.wf(),
        ex.next_task + runnables.len() <= u64::MAX,
    ensures
        ({
            let after = ex.after_schedule_all(runnables);
            &&& after.state.wf()
            &&& after.next_task == ex.next_task + runnables.len()
            &&& after.state.shards == ex.state.shards
            &&& after.state.sleepers.ids == ex.state.sleepers.ids
            &&& runnables.len() > 0 ==> after.state.notified
            &&& after.state.queue == ex.state.queue + Seq::new(
                runnables.len(),
                |i: int| (ex.next_task + i) as u64,
            )
            &&& forall|task: u64| #[trigger]
                after.runnables.contains_key(task) <==> ex.runnables.contains_key(task)
                    || ex.next_task <= task < after.next_task
            &&& forall|task: u64| #[trigger]
                ex.runnables.contains_key(task) ==> after.runnables[task] == ex.runnables[task]
            &&& forall|i: int|
                0 <= i < runnables.len() ==> after.runnables[#[trigger] ((ex.next_task + i) as u64)]
                    == runnables[i]
        }),
    decreases runnables.len(),
{
    let numbers = Seq::new(runnables.len(), |i: int| (ex.next_task + i) as u64);
    if runnables.len() > 0 {
        let front = runnables.drop_last();
        law_reschedule_keeps_order(ex, front);
        let mid = ex.after_schedule_all(front);
        let after = mid.after_schedule(runnables.last());
        assert(ex.after_schedule_all(runnables) == after);
        mid.state.pushed(mid.next_task as u64).lemma_notify();
        assert(numbers =~= Seq::new(front.len(), |i: int| (ex.next_task + i) as u64).push(
            mid.next_task as u64,
        ));
        assert(after.state.queue =~= ex.state.queue + numbers);
        assert forall|i: int| 0 <= i < runnables.len() implies after.runnables[#[trigger] ((
        ex.next_task + i) as u64)] == runnables[i] by {
            if i < front.len() {
                assert(mid.runnables[(ex.next_task + i) as u64] == front[i]);
            }
        }
        assert forall|task: u64| #[trigger] ex.runnables.contains_key(task) implies
            after.runnables[task] == ex.runnables[task] by {
            assert(mid.runnables.contains_key(task));
            assert(task < ex.next_task);
        }
    } else {
        assert(ex.state.queue + numbers =~= ex.state.queue);
    }
}

/// A leaving runner may be stopped to wake a ticker: going on from there comes to the same as if it
/// had scheduled its runnables without a stop.
pub proof fn law_leave_in_steps<R>(ex: ExecutorView<R>, runnables: Seq<R>)
    requires
        runnables.len() > 0,
    ensures
        ex.after_schedule(runnables[0]).after_schedule_all(runnables.skip(1))
            == ex.after_schedule_all(runnables),
    decreases runnables.len(),
{
    if runnables.len() == 1 {
        assert(runnables.skip(1) == Seq::<R>::empty());
        assert(runnables.drop_last() == Seq::<R>::empty());
        assert(ex.after_schedule_all(runnables.drop_last()) == ex);
    } else {
        law_leave_in_steps(ex, runnables.drop_last());
        assert(runnables.drop_last().skip(1) == runnables.skip(1).drop_last());
        assert(runnables.skip(1).last() == runnables.last());
    }
}

/// A leaving runner keeps the executor alert.
pub proof fn law_leave_keeps_alert<R>(
    ex: ExecutorView<R>,
    leaving: LeavingView<R>,
    waker: Option<Waker>,
    leaving_after: LeavingView<R>,
    after: ExecutorView<R>,
)
    requires
        ex.wf(),
        is_registered(leaving.sleeping, ex.state),
        ex.next_task + leaving.runnables.len() <= u64::MAX,
        is_alert(ex.state),
        ex.left(leaving, waker, leaving_after, after),
    ensures
        is_alert(after.state),
{
    if !(leaving.runnables.len() > 0 && !ex.state.notified) {
        law_reschedule_keeps_order(ex, leaving.runnables);
        let returned = ex.after_schedule_all(leaving.runnables);
        if leaving.runnables.len() == 0 {
            assert(returned.state == ex.state);
        }
        law_drop_keeps_alert(returned.state, leaving.sleeping);
    }
}

/// The runnables in the global queue, the next one to run in front.
pub open spec fn queued<R>(ex: ExecutorView<R>) -> Seq<R> {
    ex.runnables_of(ex.state.queue)
}

/// A runner that goes away gives the tasks of its shard back to the global queue: all of them, in
/// their order, and behind those that are there.
pub proof fn law_runner_drop_gives_tasks_back<R>(ex: ExecutorView<R>, runner: RunnerView)
    requires
        ex.wf(),
        runner.attached(ex.state),
        ex.next_task + ex.state.shards[ex.state.shard_index(runner.shard)].tasks.len() <= u64::MAX,
    ensures
        ({
            let tasks = ex.runnables_of(
                ex.state.shards[ex.state.shard_index(runner.shard)].tasks,
            );
            queued(ex.without_runner(runner).after_schedule_all(tasks)) == queued(ex) + tasks
        }),
{
    let own = ex.state.shard_index(runner.shard);
    assert(ex.state.shard_at(runner.shard, own));
    let shard = ex.state.shards[own].tasks;
    let tasks = ex.runnables_of(shard);
    let mid = ex.without_runner(runner);
    let after = mid.after_schedule_all(tasks);
    ex.lemma_without_runner_wf(runner);
    law_reschedule_keeps_order(mid, tasks);
    assert forall|i: int| 0 <= i < ex.state.queue.len() implies #[trigger] after.runnables[ex.state.queue[i]]
        == ex.runnables[ex.state.queue[i]] by {
        let task = ex.state.queue[i];
        broadcast use vstd::seq_lib::group_to_multiset_ensures;

        assert(ex.state.queue.contains(task));
        assert(mid.state.queue.to_multiset().count(task) > 0);
        assert(scheduled(mid.state).count(task) > 0);
        assert(mid.runnables.contains_key(task));
    }
    assert forall|i: int| 0 <= i < tasks.len() implies after.runnables[#[trigger] after.state.queue[
        ex.state.queue.len() + i]] == tasks[i] by {
        assert(after.state.queue[ex.state.queue.len() + i] == (mid.next_task + i) as u64);
    }
    assert(queued(after) =~= queued(ex) + tasks);
}

/// All sleeping tickers still sleep, but for the one with ID `gone`.
pub open spec fn keeps_tickers(state: StateView, after: StateView, gone: Option<u64>) -> bool {
    forall|id: u64| #[trigger]
        state.sleepers.ids.contains(id) && gone != Some(id) ==> after.sleepers.ids.contains(id)
}

/// All shards are still there, each in its place, but for the one at position `except`, and of
/// their tasks at most some from the front are gone.
pub open spec fn keeps_shards(state: StateView, after: StateView, except: int) -> bool {
    &&& after.shards.len() == state.shards.len()
    &&& forall|i: int|
        0 <= i < state.shards.len() ==> (#[trigger] after.shards[i]).id == state.shards[i].id
    &&& forall|i: int|
        0 <= i < state.shards.len() && i != except ==> is_rest(
            state.shards[i].tasks,
            (#[trigger] after.shards[i]).tasks,
        )
}

/// `rest` is what is left of `tasks` when some are taken from the front.
pub open spec fn is_rest(tasks: Seq<u64>, rest: Seq<u64>) -> bool {
    rest.len() <= tasks.len() && rest =~= tasks.skip(tasks.len() - rest.len())
}

/// Scheduling a task leaves tickers and shards alone.
pub proof fn law_schedule_keeps_others(state: StateView, task: u64)
    ensures
        keeps_tickers(state, state.pushed(task).after_notify(), None),
        keeps_shards(state, state.pushed(task).after_notify(), -1),
{
}

/// A ticker that looks for a task or goes away leaves other tickers and all shards alone.
pub proof fn law_tick_keeps_others(state: StateView, sleeping: Option<u64>, waker: Waker)
    ensures
        keeps_tickers(state, after_sleep(sleeping, state, waker), None),
        keeps_shards(state, after_sleep(sleeping, state, waker), -1),
        keeps_tickers(state, after_wake(sleeping, state.popped()).after_notify(), sleeping),
        keeps_shards(state, after_wake(sleeping, state.popped()).after_notify(), -1),
        keeps_tickers(state, after_drop(sleeping, state), sleeping),
        keeps_shards(state, after_drop(sleeping, state), -1),
{
}

/// A runner that finds a task leaves other tickers alone. It puts tasks into its own shard only,
/// and takes tasks from the front of other shards at most.
pub proof fn law_run_keeps_others(
    runner: RunnerView,
    state: StateView,
    start: int,
    tick: Tick,
    runner_after: RunnerView,
    state_after: StateView,
)
    requires
        state.wf(),
        runner.attached(state),
        0 <= start < state.shards.len(),
        found(runner, state, start, tick, runner_after, state_after),
    ensures
        keeps_tickers(state, state_after, runner.sleeping),
        keeps_shards(state, state_after, state.shard_index(runner.shard)),
{
    let own = state.shard_index(runner.shard);
    assert(state.shard_at(runner.shard, own));
    let searched = after_search(state, own, start);
    lemma_after_search(state, own, start);
    lemma_victim_from(state, own, start, 0);
    searched.lemma_shard_index(runner.shard, own);
    assert forall|i: int| 0 <= i < state.shards.len() && i != own implies is_rest(
        state.shards[i].tasks,
        (#[trigger] state_after.shards[i]).tasks,
    ) by {
        assert(state_after.shards[i] == searched.shards[i]);
    }
}

/// A runner that counts a task leaves all tickers and other shards alone.
pub proof fn law_bump_keeps_others(runner: RunnerView, state: StateView)
    requires
        runner.attached(state),
    ensures
        keeps_tickers(state, runner.state_after_bump(state), None),
        keeps_shards(state, runner.state_after_bump(state), state.shard_index(runner.shard)),
{
    assert(state.shard_at(runner.shard, state.shard_index(runner.shard)));
}

/// A runner whose shard goes leaves tickers, other shards and other runners alone.
pub proof fn law_runner_drop_keeps_others(runner: RunnerView, state: StateView, other: RunnerView)
    requires
        runner.attached(state),
    ensures
        ({
            let own = state.shard_index(runner.shard);
            let after = state.shard_removed(own);
            &&& after.sleepers == state.sleepers
            &&& after.queue == state.queue
            &&& after.shards == state.shards.remove(own)
            &&& other.attached(state) && other.shard != runner.shard ==> other.attached(after)
        }),
{
    let own = state.shard_index(runner.shard);
    let after = state.shard_removed(own);
    assert(state.shard_at(runner.shard, own));
    if other.attached(state) && other.shard != runner.shard {
        let k = state.shard_index(other.shard);
        assert(state.shard_at(other.shard, k));
        assert(after.shard_at(other.shard, if k < own { k } else { k - 1 }));
    }
}

/// A leaving runner leaves other tickers and all shards alone.
pub proof fn law_leave_keeps_others<R>(
    ex: ExecutorView<R>,
    leaving: LeavingView<R>,
    waker: Option<Waker>,
    leaving_after: LeavingView<R>,
    after: ExecutorView<R>,
)
    requires
        ex.wf(),
        ex.next_task + leaving.runnables.len() <= u64::MAX,
        ex.left(leaving, waker, leaving_after, after),
    ensures
        keeps_tickers(ex.state, after.state, leaving.sleeping),
        keeps_shards(ex.state, after.state, -1),
{
    if !(leaving.runnables.len() > 0 && !ex.state.notified) {
        law_reschedule_keeps_order(ex, leaving.runnables);
    }
}

/// A ticker that sleeps stays known to the executor while another one does something.
pub proof fn law_stays_registered(
    sleeping: Option<u64>,
    state: StateView,
    after: StateView,
    gone: Option<u64>,
)
    requires
        is_registered(sleeping, state),
        keeps_tickers(state, after, gone),
        sleeping is None || sleeping != gone,
    ensures
        is_registered(sleeping, after),
{
}

/// A runner stays known to the executor while another one does something.
pub proof fn law_stays_attached(
    runner: RunnerView,
    state: StateView,
    after: StateView,
    gone: Option<u64>,
    except: int,
)
    requires
        runner.attached(state),
        keeps_tickers(state, after, gone),
        runner.sleeping is None || runner.sleeping != gone,
        keeps_shards(state, after, except),
    ensures
        runner.attached(after),
{
    let own = state.shard_index(runner.shard);
    assert(state.shard_at(runner.shard, own));
    assert(after.shard_at(runner.shard, own));
}

/// A runner does not sleep while there are tasks in its shard.
pub open spec fn is_diligent(runner: RunnerView, state: StateView) -> bool {
    runner.sleeping is Some ==> state.shards[state.shard_index(runner.shard)].tasks.len() == 0
}

/// A runner that has looked for a task does not sleep while there are tasks in its shard.
pub proof fn law_run_is_diligent(
    runner: RunnerView,
    state: StateView,
    start: int,
    tick: Tick,
    runner_after: RunnerView,
    state_after: StateView,
    waker: Waker,
)
    requires
        state.wf(),
        runner.attached(state),
        can_sleep(runner.sleeping, state),
    ensures
        found(runner, state, start, tick, runner_after, state_after) ==> is_diligent(
            runner_after,
            state_after,
        ),
        state.is_idle() ==> is_diligent(
            RunnerView { sleeping: asleep(runner.sleeping, state), ..runner },
            after_sleep(runner.sleeping, state, waker),
        ),
{
    let after = after_sleep(runner.sleeping, state, waker);
    lemma_asleep(runner.sleeping, state, waker);
    state.lemma_same_shards(after, runner.shard);
    assert(state.shard_at(runner.shard, state.shard_index(runner.shard)));
}

/// A runner that counts the task that it has found is awake, and so it does not sleep while there are
/// tasks in its shard.
pub proof fn law_bump_is_diligent(runner: RunnerView, state: StateView)
    ensures
        is_diligent(runner.after_dispatch().after_bump(), runner.state_after_bump(state)),
{
}

/// Whatever others do, a runner never sleeps while there are tasks in its shard.
pub proof fn law_stays_diligent(
    runner: RunnerView,
    state: StateView,
    after: StateView,
    except: int,
)
    requires
        state.wf(),
        after.wf(),
        state.has_shard(runner.shard),
        is_diligent(runner, state),
        keeps_shards(state, after, except),
        state.shard_index(runner.shard) != except,
    ensures
        is_diligent(runner, after),
{
    let own = state.shard_index(runner.shard);
    assert(state.shard_at(runner.shard, own));
    assert(after.shard_at(runner.shard, own));
    after.lemma_shard_index(runner.shard, own);
}

/// The state after `n` tasks have been taken from the global queue, one after the other.
pub open spec fn after_ticks(state: StateView, n: nat) -> StateView
    decreases n,
{
    if n == 0 {
        state
    } else {
        after_ticks(state, (n - 1) as nat).popped().after_notify()
    }
}

/// Tasks leave the global queue in the order in which they were scheduled.
pub proof fn law_first_in_first_out(state: StateView, n: nat)
    requires
        n <= state.queue.len(),
    ensures
        after_ticks(state, n).queue == state.queue.skip(n as int),
    decreases n,
{
    if n > 0 {
        law_first_in_first_out(state, (n - 1) as nat);
        assert(state.queue.skip(n - 1).skip(1) == state.queue.skip(n as int));
    } else {
        assert(state.queue.skip(0) == state.queue);
    }
}

/// Stealing takes half of the tasks, rounded up, unless that does not fit; then it fills the room.
pub proof fn law_steal_count(len: nat, room: Option<nat>)
    ensures
        steal_count(len, room) <= len,
        room matches Some(room) ==> steal_count(len, Some(room)) <= room,
        room is None ==> len <= 2 * steal_count(len, room) <= len + 1,
        steal_count(len, room) == 0 <==> len == 0 || room == Some(0nat),
{
}

/// Every time a runner counts a task it comes one step closer to stealing from the global queue, also
/// when its counter starts over.
pub proof fn law_fairness_tick(runner: RunnerView)
    ensures
        runner.after_bump().ticks as int % FAIRNESS_INTERVAL as int == (runner.ticks + 1)
            % FAIRNESS_INTERVAL as int,
{
    if runner.ticks == usize::MAX {
        assert(usize::MAX == 0xffff_ffff || usize::MAX == 0xffff_ffff_ffff_ffff);
    }
}

/// When a runner steals from the global queue, the task that has waited longest moves into its
/// shard, unless that is full.
pub proof fn law_fairness_moves_oldest(state: StateView, to: int)
    requires
        state.wf(),
        0 <= to < state.shards.len(),
        state.queue.len() > 0,
        state.room(to) > 0,
    ensures
        state.stolen_global(to).queue.len() < state.queue.len(),
        state.stolen_global(to).shards[to].tasks.len() > state.shards[to].tasks.len(),
        state.stolen_global(to).shards[to].tasks[state.shards[to].tasks.len() as int]
            == state.queue[0],
{
}

/// The runner after it has counted `n` tasks, one after the other.
pub open spec fn after_bumps(runner: RunnerView, n: nat) -> RunnerView
    decreases n,
{
    if n == 0 {
        runner
    } else {
        after_bumps(runner, (n - 1) as nat).after_bump()
    }
}

/// Counters that stand in the same place in the interval do so after one more step.
proof fn lemma_step(a: int, b: int)
    requires
        a % FAIRNESS_INTERVAL as int == b % FAIRNESS_INTERVAL as int,
    ensures
        (a + 1) % FAIRNESS_INTERVAL as int == (b + 1) % FAIRNESS_INTERVAL as int,
{
}

/// The counter of a runner that has counted `n` tasks more stands `n` steps further in the interval.
#[verifier::spinoff_prover]
proof fn lemma_bumps(runner: RunnerView, n: nat)
    ensures
        after_bumps(runner, n).ticks as int % FAIRNESS_INTERVAL as int == (runner.ticks + n)
            % FAIRNESS_INTERVAL as int,
    decreases n,
{
    if n > 0 {
        let before = after_bumps(runner, (n - 1) as nat);
        lemma_bumps(runner, (n - 1) as nat);
        law_fairness_tick(before);
        lemma_step(before.ticks as int, runner.ticks + n - 1);
    }
}

/// A runner that goes on counting tasks steals from the global queue once in every interval,
/// whatever it has counted so far.
pub proof fn law_fairness_within_interval(runner: RunnerView)
    ensures
        exists|n: nat|
            n < FAIRNESS_INTERVAL && (#[trigger] after_bumps(runner, n)).is_fairness_tick()
                && forall|m: nat|
                m < FAIRNESS_INTERVAL && (#[trigger] after_bumps(
                    runner,
                    m,
                )).is_fairness_tick() ==> m == n,
{
    let over = runner.ticks % FAIRNESS_INTERVAL;
    let n: nat = if over == 0 {
        0
    } else {
        (FAIRNESS_INTERVAL - over) as nat
    };
    lemma_bumps(runner, n);
    assert(after_bumps(runner, n).is_fairness_tick());
    assert forall|m: nat|
        m < FAIRNESS_INTERVAL && (#[trigger] after_bumps(runner, m)).is_fairness_tick() implies m
        == n by {
        lemma_bumps(runner, m);
    }
}

/// A new executor has no task to run: an attempt finds none, and workers wait.
pub proof fn law_new_executor_waits<R>(
    ex: ExecutorView<R>,
    sleeping: Option<u64>,
    waker: Waker,
    job: Option<Job<R>>,
    sleeping_after: Option<u64>,
    after: ExecutorView<R>,
)
    requires
        ex == ExecutorView::<R>::initial(),
    ensures
        ex.state.is_idle(),
        ex.try_ticked(job, after) ==> job is None && after == ex,
        ex.ticked(sleeping, waker, job, sleeping_after, after) ==> job is None,
{
}

/// A task that was spawned or woken up is there to be run: whoever tries next finds a task, and the
/// new one if no other was scheduled.
pub proof fn law_scheduled_task_is_found<R>(
    ex: ExecutorView<R>,
    runnable: R,
    sleeping: Option<u64>,
    runner: RunnerView,
    left: nat,
    waker: Waker,
    job: Option<Job<R>>,
    step: RunStep<R>,
    sleeping_after: Option<u64>,
    runner_after: RunnerView,
    left_after: nat,
    after: ExecutorView<R>,
)
    requires
        ex.wf(),
        ex.next_task < u64::MAX,
    ensures
        ex.after_schedule(runnable).try_ticked(job, after) || ex.after_schedule(runnable).ticked(
            sleeping,
            waker,
            job,
            sleeping_after,
            after,
        ) ==> {
            &&& job is Some
            &&& ex.state.queue.len() == 0 ==> job->0.runnable == runnable
        },
        left > 0 && runner.attached(ex.state) && ex.after_schedule(runnable).ran(
            runner,
            left,
            waker,
            step,
            runner_after,
            left_after,
            after,
        ) ==> {
            &&& step is Run
            &&& ex.state.is_idle() ==> step->Run_0@.runnable == runnable
        },
{
    let mid = ex.after_schedule(runnable);
    assert(mid.state.queue.len() > 0);
    if ex.state.queue.len() == 0 {
        assert(mid.state.queue[0] == ex.next_task as u64);
    }
    if left > 0 && runner.attached(ex.state) && mid.ran(
        runner,
        left,
        waker,
        step,
        runner_after,
        left_after,
        after,
    ) {
        assert(!mid.state.is_idle());
        let own = ex.state.shard_index(runner.shard);
        assert(ex.state.shard_at(runner.shard, own));
        ex.state.pushed(ex.next_task as u64).lemma_notify();
        ex.state.lemma_same_shards(mid.state, runner.shard);
    }
}

/// A job that is handed out is one of the scheduled ones, and it is scheduled no more: no task is
/// run twice, and the others stay scheduled.
pub proof fn law_job_is_handed_out_once<R>(
    ex: ExecutorView<R>,
    sleeping: Option<u64>,
    runner: RunnerView,
    left: nat,
    waker: Waker,
    job: Job<R>,
    found_job: Found<R>,
    sleeping_after: Option<u64>,
    runner_after: RunnerView,
    left_after: nat,
    after: ExecutorView<R>,
)
    requires
        ex.wf(),
        ex.try_ticked(Some(job), after) || ex.ticked(
            sleeping,
            waker,
            Some(job),
            sleeping_after,
            after,
        ) || (runner.attached(ex.state) && job == found_job@ && ex.ran(
            runner,
            left,
            waker,
            RunStep::Run(found_job),
            runner_after,
            left_after,
            after,
        )),
    ensures
        exists|task: u64| #[trigger]
            ex.runnables.contains_key(task) && job.runnable == ex.runnables[task]
                && after.runnables == ex.runnables.remove(task) && scheduled(ex.state).count(task)
                == 1 && scheduled(after.state) == scheduled(ex.state).remove(task),
{
    let task = if ex.try_ticked(Some(job), after) || ex.ticked(
        sleeping,
        waker,
        Some(job),
        sleeping_after,
        after,
    ) {
        law_pop_takes_task(ex.state);
        ex.state.queue[0]
    } else {
        let (start, tick) = choose|start: int, tick: Tick|
            0 <= start < ex.state.shards.len() && #[trigger] found(
                runner,
                ex.state,
                start,
                tick,
                runner_after,
                after.state,
            ) && job == ex.job(tick) && after == ex.without(after.state, tick.task);
        lemma_found_takes_task(runner, ex.state, start, tick, runner_after, after.state);
        tick.task
    };
    assert(scheduled(after.state).insert(task) == scheduled(ex.state));
    assert(scheduled(ex.state).count(task) == scheduled(after.state).count(task) + 1);
    assert(ex.runnables.contains_key(task));
    assert(scheduled(after.state) =~= scheduled(ex.state).remove(task));
}

/// One call that runs an executor: what it found and what it left.
pub struct Turn<R> {
    /// The executor before the call.
    pub before: ExecutorView<R>,
    /// The runner before the call.
    pub runner: RunnerView,
    /// How many tasks were left in the batch.
    pub left: nat,
    /// The waker that the call was made with.
    pub waker: Waker,
    /// What the call returned.
    pub step: RunStep<R>,
    /// The runner after the call.
    pub runner_after: RunnerView,
    /// How many tasks are left in the batch.
    pub left_after: nat,
    /// The executor after the call.
    pub after: ExecutorView<R>,
}

impl<R> Turn<R> {
    /// The call did what running an executor does.
    pub open spec fn happened(self) -> bool {
        self.before.ran(
            self.runner,
            self.left,
            self.waker,
            self.step,
            self.runner_after,
            self.left_after,
            self.after,
        )
    }
}

/// `turns` are calls for one batch, one after the other, whatever happens to the executor between
/// them.
pub open spec fn in_one_batch<R>(turns: Seq<Turn<R>>) -> bool {
    &&& turns.len() > 0 ==> turns[0].left == BATCH_SIZE
    &&& forall|i: int| 0 <= i < turns.len() ==> (#[trigger] turns[i]).happened()
    &&& forall|i: int, j: int|
        0 <= i && j == i + 1 && j < turns.len() ==> (#[trigger] turns[i]).left_after == (
        #[trigger] turns[j]).left
}

/// A batch hands out a limited number of tasks, and then it yields.
pub proof fn law_batch_yields<R>(turns: Seq<Turn<R>>, n: nat)
    requires
        in_one_batch(turns),
        n < turns.len(),
        forall|i: int| 0 <= i < n ==> (#[trigger] turns[i]).step is Run,
    ensures
        n <= BATCH_SIZE,
        turns[n as int].left == BATCH_SIZE - n,
        turns[n as int].step is Yield <==> n == BATCH_SIZE,
    decreases n,
{
    assert(turns[n as int].happened());
    if n > 0 {
        law_batch_yields(turns, (n - 1) as nat);
        assert(turns[n - 1].happened());
        assert(turns[n - 1].left_after == turns[n as int].left);
    }
}

} // verus!
