//! Runners: workers that keep a shard of the global queue and steal from each other.

use crate::random::random_below;
use crate::state::{Shard, State, StateView};
use crate::ticker::{
    after_sleep, after_wake, asleep, can_sleep, is_registered, is_roused, lemma_asleep,
    lemma_sleep_again, Tick, Ticker,
};
use std::task::Waker;
use vstd::prelude::*;

verus! {

/// A runner steals from the global queue whenever it has run this many tasks more.
pub const FAIRNESS_INTERVAL: usize = 64;

/// The shard at position `i` is not the runner's own one, and there is a task in it.
pub open spec fn is_victim(state: StateView, own: int, i: int) -> bool {
    0 <= i < state.shards.len() && i != own && state.shards[i].tasks.len() > 0
}

/// The position that comes `j` steps after position `start` in a list of `n`, which is taken to
/// start over behind its end.
pub open spec fn rotated(n: int, start: int, j: int) -> int {
    if start + j < n {
        start + j
    } else {
        start + j - n
    }
}

/// The first shard to steal from, `j` or more steps after position `start`.
pub open spec fn victim_from(state: StateView, own: int, start: int, j: int) -> Option<int>
    decreases state.shards.len() - j,
{
    let i = rotated(state.shards.len() as int, start, j);
    if j >= state.shards.len() {
        None
    } else if is_victim(state, own, i) {
        Some(i)
    } else {
        victim_from(state, own, start, j + 1)
    }
}

/// The task that is found in the other shards, looked through from position `start` on.
pub open spec fn shards_task(state: StateView, own: int, start: int) -> Option<u64> {
    match victim_from(state, own, start, 0) {
        Some(i) => Some(state.shards[i].tasks[0]),
        None => None,
    }
}

/// The state after a task has been looked for in the other shards: half of the first one that has
/// any is stolen, and the first task of that half is taken.
pub open spec fn after_shards(state: StateView, own: int, start: int) -> StateView {
    match victim_from(state, own, start, 0) {
        Some(i) => state.stolen_shard(i, own).shard_popped(own),
        None => state,
    }
}

/// The task that a runner finds: the first one of its own shard, else of the global queue, else of
/// the other shards, looked through from position `start` on.
pub open spec fn search_task(state: StateView, own: int, start: int) -> Option<u64> {
    if state.shards[own].tasks.len() > 0 {
        Some(state.shards[own].tasks[0])
    } else if state.queue.len() > 0 {
        Some(state.queue[0])
    } else {
        shards_task(state, own, start)
    }
}

/// The state after a runner has looked for a task.
pub open spec fn after_search(state: StateView, own: int, start: int) -> StateView {
    if state.shards[own].tasks.len() > 0 {
        state.shard_popped(own)
    } else if state.queue.len() > 0 {
        state.popped().stolen_global(own)
    } else {
        after_shards(state, own, start)
    }
}

/// What a [`Runner`] holds.
#[verifier::ext_equal]
pub struct RunnerView {
    /// The ID of the runner's ticker when in sleeping state.
    pub sleeping: Option<u64>,
    /// The number of the runner's shard.
    pub shard: u64,
    /// How many tasks the runner has found, counted up to the range of `usize`.
    pub ticks: usize,
}

impl RunnerView {
    /// The runner belongs to an executor with state `state`.
    pub open spec fn attached(self, state: StateView) -> bool {
        is_registered(self.sleeping, state) && state.has_shard(self.shard)
    }

    /// The runner after it has found a task: it is awake.
    pub open spec fn after_dispatch(self) -> Self {
        RunnerView { sleeping: None, ..self }
    }

    /// What a runner that has found `task` leaves to the caller.
    pub open spec fn tick(self, state: StateView, task: u64) -> Tick {
        Tick { waker: after_wake(self.sleeping, state).notify_waker(), task }
    }

    /// The state after a runner has found a task: it is awake, and another ticker is notified.
    pub open spec fn state_after_dispatch(self, state: StateView) -> StateView {
        after_wake(self.sleeping, state).after_notify()
    }

    /// The runner after it has counted a task.
    pub open spec fn after_bump(self) -> Self {
        RunnerView {
            ticks: if self.ticks == usize::MAX {
                0
            } else {
                (self.ticks + 1) as usize
            },
            ..self
        }
    }

    /// It is time for the runner to steal from the global queue.
    pub open spec fn is_fairness_tick(self) -> bool {
        self.ticks % FAIRNESS_INTERVAL == 0
    }

    /// The state after a runner has counted a task: if it is time for that, its shard has stolen
    /// from the global queue.
    pub open spec fn state_after_bump(self, state: StateView) -> StateView {
        if self.is_fairness_tick() {
            state.stolen_global(state.shard_index(self.shard))
        } else {
            state
        }
    }
}

/// A runner that looks through the other shards from position `start` on, if need be, finds a task,
/// leaves `tick` to the caller and ends as `runner_after` in state `state_after`.
pub open spec fn found(
    runner: RunnerView,
    state: StateView,
    start: int,
    tick: Tick,
    runner_after: RunnerView,
    state_after: StateView,
) -> bool {
    let own = state.shard_index(runner.shard);
    let searched = after_search(state, own, start);
    &&& search_task(state, own, start) matches Some(task)
    &&& tick == runner.tick(searched, task)
    &&& runner_after == runner.after_dispatch()
    &&& state_after == runner.state_after_dispatch(searched)
}

/// The first victim is the first one in the rotation, and there is one unless every other shard is
/// empty.
pub proof fn lemma_victim_from(state: StateView, own: int, start: int, j: int)
    requires
        0 <= start < state.shards.len(),
        0 <= j <= state.shards.len(),
    ensures
        match victim_from(state, own, start, j) {
            Some(i) => is_victim(state, own, i) && exists|k: int|
                j <= k < state.shards.len() && #[trigger] rotated(state.shards.len() as int, start, k)
                    == i && forall|m: int|
                    j <= m < k ==> !is_victim(
                        state,
                        own,
                        #[trigger] rotated(state.shards.len() as int, start, m),
                    ),
            None => forall|m: int|
                j <= m < state.shards.len() ==> !is_victim(
                    state,
                    own,
                    #[trigger] rotated(state.shards.len() as int, start, m),
                ),
        },
    decreases state.shards.len() - j,
{
    let n = state.shards.len() as int;
    if j < n {
        let i = rotated(n, start, j);
        if is_victim(state, own, i) {
            assert(victim_from(state, own, start, j) == Some(i));
        } else {
            lemma_victim_from(state, own, start, j + 1);
            assert(victim_from(state, own, start, j) == victim_from(state, own, start, j + 1));
            match victim_from(state, own, start, j) {
                Some(v) => {
                    let k = choose|k: int|
                        j + 1 <= k < n && #[trigger] rotated(n, start, k) == v && forall|m: int|
                            j + 1 <= m < k ==> !is_victim(
                                state,
                                own,
                                #[trigger] rotated(n, start, m),
                            );
                    assert(rotated(n, start, k) == v);
                },
                None => {},
            }
        }
    }
}

/// A runner finds no task exactly if no task is scheduled, and leaves the state alone then.
pub proof fn lemma_search_idle(state: StateView, own: int, start: int)
    requires
        0 <= own < state.shards.len(),
        0 <= start < state.shards.len(),
    ensures
        search_task(state, own, start) is None <==> state.is_idle(),
        state.is_idle() ==> after_search(state, own, start) == state,
{
    let n = state.shards.len() as int;
    lemma_victim_from(state, own, start, 0);
    if search_task(state, own, start) is None {
        assert forall|i: int| 0 <= i < n implies (#[trigger] state.shards[i]).tasks.len() == 0 by {
            let m = if i >= start { i - start } else { i - start + n };
            assert(rotated(n, start, m) == i);
            assert(!is_victim(state, own, i));
        }
    }
}

/// A runner that looks for a task while none is scheduled leaves the state alone, wherever it starts.
proof fn lemma_search_idle_state(state: StateView, shard: u64)
    requires
        state.wf(),
        state.has_shard(shard),
        state.is_idle(),
    ensures
        forall|start: int|
            0 <= start < state.shards.len() ==> #[trigger] after_search(
                state,
                state.shard_index(shard),
                start,
            ) == state,
{
    let own = state.shard_index(shard);
    assert(state.shard_at(shard, own));
    assert forall|start: int| 0 <= start < state.shards.len() implies #[trigger] after_search(
        state,
        own,
        start,
    ) == state by {
        lemma_search_idle(state, own, start);
    }
}

/// Searching keeps the invariant, the sleeping tickers and the place of every shard.
pub proof fn lemma_after_search(state: StateView, own: int, start: int)
    requires
        state.wf(),
        0 <= own < state.shards.len(),
        0 <= start < state.shards.len(),
    ensures
        after_search(state, own, start).wf(),
        after_search(state, own, start).sleepers == state.sleepers,
        after_search(state, own, start).notified == state.notified,
        after_search(state, own, start).shards.len() == state.shards.len(),
        forall|i: int|
            0 <= i < state.shards.len() ==> (#[trigger] after_search(state, own, start).shards[i]).id
                == state.shards[i].id,
{
    lemma_victim_from(state, own, start, 0);
    if state.shards[own].tasks.len() > 0 {
        state.lemma_with_shard_wf(own, state.shards[own].tasks.skip(1));
    } else if state.queue.len() > 0 {
        assert(state.popped().wf());
        state.popped().lemma_stolen_wf(own, own);
    } else {
        match victim_from(state, own, start, 0) {
            Some(i) => {
                state.lemma_stolen_wf(i, own);
                let stolen = state.stolen_shard(i, own);
                stolen.lemma_with_shard_wf(own, stolen.shards[own].tasks.skip(1));
            },
            None => {},
        }
    }
}

/// Executes tasks in a work-stealing executor.
///
/// A runner is a ticker with a shard of the global queue.
pub struct Runner {
    ticker: Ticker,
    /// The number of the runner's shard of the global queue.
    shard: u64,
    /// Bumped every time a task is run.
    ticks: usize,
}

impl View for Runner {
    type V = RunnerView;

    closed spec fn view(&self) -> RunnerView {
        RunnerView { sleeping: self.ticker@, shard: self.shard, ticks: self.ticks }
    }
}

impl Runner {
    /// Creates a runner and registers it in the executor state.
    pub fn new(state: &mut State) -> (runner: Runner)
        requires
            old(state).wf(),
            old(state)@.next_shard < u64::MAX,
        ensures
            final(state).wf(),
            final(state)@ == old(state)@.shard_added(),
            runner@ == (RunnerView {
                sleeping: None,
                shard: old(state)@.next_shard as u64,
                ticks: 0,
            }),
            runner@.attached(final(state)@),
    {
        let shard: u64 = state.add_shard();
        assert(state@.shard_at(shard, old(state)@.shards.len() as int));
        Runner { ticker: Ticker::new(), shard, ticks: 0 }
    }

    /// Returns `true` if the runner is in sleeping state.
    pub fn is_sleeping(&self) -> (sleeping: bool)
        ensures
            sleeping == self@.sleeping is Some,
    {
        self.ticker.is_sleeping()
    }

    /// Attempts to execute a single task.
    ///
    /// This method finds a scheduled task for the caller to run, who first wakes the waker in the
    /// result and then calls [`Runner::bump`]. If there is none, the runner goes to sleep and `None`
    /// is returned: `waker` gets woken when there may be one.
    pub fn poll_tick(&mut self, state: &mut State, waker: &Waker) -> (tick: Option<Tick>)
        requires
            old(state).wf(),
            old(self)@.attached(old(state)@),
            old(state)@.is_idle() ==> can_sleep(old(self)@.sleeping, old(state)@),
        ensures
            final(state).wf(),
            final(self)@.attached(final(state)@),
            tick is None <==> old(state)@.is_idle(),
            tick is None ==> {
                &&& final(self)@ == (RunnerView {
                    sleeping: asleep(old(self)@.sleeping, old(state)@),
                    ..old(self)@
                })
                &&& final(state)@ == after_sleep(old(self)@.sleeping, old(state)@, *waker)
            },
            tick matches Some(tick) ==> exists|start: int|
                0 <= start < old(state)@.shards.len() && #[trigger] found(
                    old(self)@,
                    old(state)@,
                    start,
                    tick,
                    final(self)@,
                    final(state)@,
                ),
    {
        loop
            invariant
                state.wf(),
                self@.attached(state@),
                old(state).wf(),
                old(self)@.attached(old(state)@),
                old(state)@.is_idle() ==> can_sleep(old(self)@.sleeping, old(state)@),
                (self@ == old(self)@ && state@ == old(state)@) || {
                    &&& old(state)@.is_idle()
                    &&& self@ == (RunnerView {
                        sleeping: asleep(old(self)@.sleeping, old(state)@),
                        ..old(self)@
                    })
                    &&& state@ == after_sleep(old(self)@.sleeping, old(state)@, *waker)
                    &&& !is_roused(self@.sleeping, state@)
                },
            decreases (if is_roused(self@.sleeping, state@) { 1int } else { 0int }),
        {
            let ghost (runner, pre) = (self@, state@);
            let search = self.search(state);
            let ghost searched = state@;
            match search {
                None => {
                    assert(state@ == pre) by {
                        lemma_search_idle_state(pre, runner.shard);
                    }
                    proof {
                        lemma_asleep(runner.sleeping, pre, *waker);
                        pre.lemma_same_shards(
                            after_sleep(runner.sleeping, pre, *waker),
                            runner.shard,
                        );
                    }
                    // Move to sleeping and unnotified state.
                    if !self.ticker.sleep(state, waker) {
                        // If already sleeping and unnotified, return.
                        proof {
                            lemma_sleep_again(old(self)@.sleeping, old(state)@, *waker);
                        }
                        return None;
                    }
                },
                Some(task) => {
                    assert(runner == old(self)@ && pre == old(state)@);
                    let tick = self.dispatch(state, task);
                    proof {
                        let own = pre.shard_index(runner.shard);
                        let start = choose|start: int|
                            0 <= start < pre.shards.len() && Some(task) == search_task(
                                pre,
                                own,
                                start,
                            ) && searched == #[trigger] after_search(pre, own, start);
                        assert(found(old(self)@, old(state)@, start, tick, self@, state@));
                    }
                    return Some(tick);
                },
            }
        }
    }

    /// Finds the next task to run.
    pub fn search(&self, state: &mut State) -> (task: Option<u64>)
        requires
            old(state).wf(),
            self@.attached(old(state)@),
        ensures
            final(state).wf(),
            self@.attached(final(state)@),
            final(state)@.shard_index(self@.shard) == old(state)@.shard_index(self@.shard),
            task is None <==> old(state)@.is_idle(),
            exists|start: int|
                0 <= start < old(state)@.shards.len() && task == search_task(
                    old(state)@,
                    old(state)@.shard_index(self@.shard),
                    start,
                ) && final(state)@ == #[trigger] after_search(
                    old(state)@,
                    old(state)@.shard_index(self@.shard),
                    start,
                ),
    {
        let own: usize = state.find_shard(self.shard);
        let ghost pre = state@;
        proof {
            lemma_search_idle(pre, own as int, 0);
            lemma_after_search(pre, own as int, 0);
        }

        // Try the shard.
        if let Some(task) = state.pop_shard(own) {
            proof {
                assert(state@ == after_search(pre, own as int, 0));
                state@.lemma_shard_index(self.shard, own as int);
            }
            return Some(task);
        }

        // Try stealing from the global queue.
        if let Some(task) = state.pop() {
            state.steal_global(own);
            proof {
                assert(state@ == after_search(pre, own as int, 0));
                state@.lemma_shard_index(self.shard, own as int);
            }
            return Some(task);
        }

        // Try stealing from other shards, in a list rotated to a random starting point.
        let start: usize = random_below(state.shard_count());
        let task = self.search_shards(state, start);
        proof {
            lemma_search_idle(pre, own as int, start as int);
            lemma_after_search(pre, own as int, start as int);
            assert(state@ == after_search(pre, own as int, start as int));
            state@.lemma_shard_index(self.shard, own as int);
        }
        task
    }

    /// Finds the next task to run in the shards of other runners, looked through from position
    /// `start` on.
    pub fn search_shards(&self, state: &mut State, start: usize) -> (task: Option<u64>)
        requires
            old(state).wf(),
            self@.attached(old(state)@),
            start < old(state)@.shards.len(),
            old(state)@.shards[old(state)@.shard_index(self@.shard)].tasks.len() == 0,
        ensures
            final(state).wf(),
            task == shards_task(
                old(state)@,
                old(state)@.shard_index(self@.shard),
                start as int,
            ),
            final(state)@ == after_shards(
                old(state)@,
                old(state)@.shard_index(self@.shard),
                start as int,
            ),
    {
        let own: usize = state.find_shard(self.shard);
        let n: usize = state.shard_count();
        let ghost pre = state@;

        // Try stealing from each shard in the list.
        let mut j: usize = 0;
        while j < n
            invariant
                state.wf(),
                state@ == pre,
                n == pre.shards.len(),
                own < n,
                start < n,
                j <= n,
                pre.shards[own as int].tasks.len() == 0,
                own == old(state)@.shard_index(self@.shard),
                pre == old(state)@,
                victim_from(pre, own as int, start as int, 0) == victim_from(
                    pre,
                    own as int,
                    start as int,
                    j as int,
                ),
            decreases n - j,
        {
            // Start over at the end of the list.
            let i: usize = if j < n - start {
                start + j
            } else {
                j - (n - start)
            };
            assert(i == rotated(n as int, start as int, j as int));

            // Leave out this runner's shard.
            if i != own {
                state.steal_shard(i, own);
                let ghost stolen = state@;
                if let Some(task) = state.pop_shard(own) {
                    return Some(task);
                }
                assert(pre.shards[i as int].tasks.len() == 0);
                assert forall|k: int| 0 <= k < n implies #[trigger] stolen.shards[k]
                    == pre.shards[k] by {
                    assert(stolen.shards[k].tasks == pre.shards[k].tasks);
                }
                assert(state@ == pre);
            }
            j += 1;
        }
        None
    }

    /// Wakes up for a task that was found.
    ///
    /// The caller wakes the waker in the result, then calls [`Runner::bump`], then runs the task.
    pub fn dispatch(&mut self, state: &mut State, task: u64) -> (tick: Tick)
        requires
            old(state).wf(),
            old(self)@.attached(old(state)@),
        ensures
            final(state).wf(),
            final(self)@.attached(final(state)@),
            final(self)@ == old(self)@.after_dispatch(),
            final(state)@ == old(self)@.state_after_dispatch(old(state)@),
            tick == old(self)@.tick(old(state)@, task),
    {
        // Wake up.
        self.ticker.wake(state);

        // Notify another ticker now to pick up where this ticker left off, just in case running
        // the task takes a long time.
        let waker = state.notify();

        proof {
            old(state)@.lemma_same_shards(state@, self.shard);
        }
        Tick { waker, task }
    }

    /// Counts a task that was found, and steals from the global queue at regular intervals.
    pub fn bump(&mut self, state: &mut State)
        requires
            old(state).wf(),
            old(self)@.attached(old(state)@),
        ensures
            final(state).wf(),
            final(self)@.attached(final(state)@),
            final(self)@ == old(self)@.after_bump(),
            final(state)@ == old(self)@.state_after_bump(old(state)@),
    {
        // Bump the ticker.
        let ticks: usize = self.ticks;
        self.ticks = ticks.wrapping_add(1);

        let own: usize = state.find_shard(self.shard);
        // Steal tasks from the global queue to ensure fair task scheduling.
        if ticks % FAIRNESS_INTERVAL == 0 {
            state.steal_global(own);
        }
        assert(state@.shard_at(self.shard, own as int));
    }

    /// Takes the runner's shard out of the executor.
    ///
    /// Returns the runner's ticker and the shard. The caller schedules the tasks that remain in the
    /// shard and then drops the ticker.
    pub fn drop(self, state: &mut State) -> (rest: (Ticker, Shard))
        requires
            old(state).wf(),
            self@.attached(old(state)@),
        ensures
            final(state).wf(),
            final(state)@ == old(state)@.shard_removed(old(state)@.shard_index(self@.shard)),
            rest.0@ == self@.sleeping,
            rest.1@ == old(state)@.shards[old(state)@.shard_index(self@.shard)],
            is_registered(rest.0@, final(state)@),
    {
        // Remove the shard.
        let own: usize = state.find_shard(self.shard);
        let shard = state.remove_shard(own);
        (self.ticker, shard)
    }
}

} // verus!
