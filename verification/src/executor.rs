//! Executors.

use crate::runner::{after_search, found, lemma_after_search, Runner, RunnerView};
use crate::scheduled::{
    law_bump_keeps_tasks, law_dispatch_keeps_tasks, law_new_runner_keeps_tasks, law_pop_takes_task,
    law_runner_drop_takes_shard, law_schedule_adds_task, law_search_takes_task,
    law_tickers_leave_tasks, lemma_first, scheduled,
};
use crate::state::{State, StateView};
use crate::task::Task;
use crate::ticker::{
    after_drop, after_sleep, after_wake, asleep, can_sleep, drop_waker, is_registered, Tick, Ticker,
};
use std::collections::{HashMap, VecDeque};
use std::task::Waker;
use vstd::multiset::Multiset;
use vstd::prelude::*;

verus! {

/// How many tasks are run in a batch before other futures get a turn.
pub const BATCH_SIZE: usize = 200;

/// What an [`Executor`] holds.
#[verifier::ext_equal]
pub struct ExecutorView<R> {
    /// The queues, in which runnables stand by number, and the sleeping tickers.
    pub state: StateView,
    /// The runnables by number.
    pub runnables: Map<u64, R>,
    /// The number that the next runnable gets.
    pub next_task: nat,
}

impl<R> ExecutorView<R> {
    /// A new executor.
    pub open spec fn initial() -> Self {
        ExecutorView { state: StateView::initial(), runnables: Map::empty(), next_task: 0 }
    }

    /// The invariant of an executor: each runnable stands in exactly one queue, and only once.
    pub open spec fn wf(self) -> bool {
        &&& self.state.wf()
        &&& forall|task: u64| #[trigger]
            scheduled(self.state).count(task) == if self.runnables.contains_key(task) {
                1nat
            } else {
                0
            }
        &&& forall|task: u64| #[trigger]
            self.runnables.contains_key(task) ==> task < self.next_task
    }

    /// The executor after `runnable` has been scheduled.
    pub open spec fn after_schedule(self, runnable: R) -> Self {
        ExecutorView {
            state: self.state.pushed(self.next_task as u64).after_notify(),
            runnables: self.runnables.insert(self.next_task as u64, runnable),
            next_task: self.next_task + 1,
        }
    }

    /// The executor after `runnables` have been scheduled one after the other.
    pub open spec fn after_schedule_all(self, runnables: Seq<R>) -> Self
        decreases runnables.len(),
    {
        if runnables.len() == 0 {
            self
        } else {
            self.after_schedule_all(runnables.drop_last()).after_schedule(runnables.last())
        }
    }

    /// The runnables that have the numbers `tasks`.
    pub open spec fn runnables_of(self, tasks: Seq<u64>) -> Seq<R> {
        tasks.map_values(|task: u64| self.runnables[task])
    }

    /// The executor after a runner has been taken out: its shard is gone, and the runnables in the
    /// shard with it.
    pub open spec fn without_runner(self, runner: RunnerView) -> Self {
        let own = self.state.shard_index(runner.shard);
        ExecutorView {
            state: self.state.shard_removed(own),
            runnables: self.runnables.remove_keys(self.state.shards[own].tasks.to_set()),
            ..self
        }
    }

    /// What a runner that goes away does: it schedules the runnables that remain, up to the first
    /// one for which a ticker has to be woken, and its ticker goes away after the last one.
    pub open spec fn left(
        self,
        leaving: LeavingView<R>,
        waker: Option<Waker>,
        leaving_after: LeavingView<R>,
        after: Self,
    ) -> bool {
        if leaving.runnables.len() > 0 && !self.state.notified {
            &&& waker is Some
            &&& waker == self.state.notify_waker()
            &&& after == self.after_schedule(leaving.runnables[0])
            &&& leaving_after == (LeavingView {
                runnables: leaving.runnables.skip(1),
                ..leaving
            })
        } else {
            let returned = self.after_schedule_all(leaving.runnables);
            &&& waker == drop_waker(leaving.sleeping, returned.state)
            &&& after == returned.with_state(after_drop(leaving.sleeping, returned.state))
            &&& leaving_after == (LeavingView { sleeping: None, runnables: Seq::<R>::empty() })
        }
    }

    /// The executor in state `state`, without the runnable that has number `task`.
    pub open spec fn without(self, state: StateView, task: u64) -> Self {
        ExecutorView { state, runnables: self.runnables.remove(task), ..self }
    }

    /// The executor in state `state`.
    pub open spec fn with_state(self, state: StateView) -> Self {
        ExecutorView { state, ..self }
    }

    /// What is left to the caller when the executor hands out what stands behind `tick`.
    pub open spec fn job(self, tick: Tick) -> Job<R> {
        Job { waker: tick.waker, runnable: self.runnables[tick.task] }
    }

    /// What an attempt to run a task does: it hands out the first one of the global queue, if any.
    pub open spec fn try_ticked(self, job: Option<Job<R>>, after: Self) -> bool {
        if self.state.queue.len() == 0 {
            job is None && after == self
        } else {
            let task = self.state.queue[0];
            let popped = self.state.popped();
            &&& job == Some(self.job(Tick { waker: popped.notify_waker(), task }))
            &&& after == self.without(popped.after_notify(), task)
        }
    }

    /// What a ticker with the ID `sleeping`, if it sleeps, does: it wakes up for the first task of
    /// the global queue, or goes to sleep if there is none.
    pub open spec fn ticked(
        self,
        sleeping: Option<u64>,
        waker: Waker,
        job: Option<Job<R>>,
        sleeping_after: Option<u64>,
        after: Self,
    ) -> bool {
        if self.state.queue.len() == 0 {
            &&& job is None
            &&& sleeping_after == asleep(sleeping, self.state)
            &&& after == self.with_state(after_sleep(sleeping, self.state, waker))
        } else {
            let task = self.state.queue[0];
            let woken = after_wake(sleeping, self.state.popped());
            &&& job == Some(self.job(Tick { waker: woken.notify_waker(), task }))
            &&& sleeping_after is None
            &&& after == self.without(woken.after_notify(), task)
        }
    }

    /// What a runner with `left` tasks left in its batch does: it yields at the end of the batch,
    /// goes to sleep if no task is scheduled, and else hands out one that it finds.
    pub open spec fn ran(
        self,
        runner: RunnerView,
        left: nat,
        waker: Waker,
        step: RunStep<R>,
        runner_after: RunnerView,
        left_after: nat,
        after: Self,
    ) -> bool {
        &&& step is Yield <==> left == 0
        &&& step is Wait <==> left > 0 && self.state.is_idle()
        &&& match step {
            RunStep::Yield => {
                &&& after == self
                &&& runner_after == runner
                &&& left_after == left
            },
            RunStep::Wait => {
                &&& after == self.with_state(after_sleep(runner.sleeping, self.state, waker))
                &&& runner_after == (RunnerView {
                    sleeping: asleep(runner.sleeping, self.state),
                    ..runner
                })
                &&& left_after == left
            },
            RunStep::Run(found_job) => {
                &&& left_after == left - 1
                &&& exists|start: int, tick: Tick|
                    0 <= start < self.state.shards.len() && #[trigger] found(
                        runner,
                        self.state,
                        start,
                        tick,
                        runner_after,
                        after.state,
                    ) && found_job@ == self.job(tick) && after == self.without(
                        after.state,
                        tick.task,
                    )
            },
        }
    }

    /// Taking a task out of the queues and its runnable with it keeps the invariant.
    pub proof fn lemma_without_wf(self, state: StateView, task: u64)
        requires
            self.wf(),
            state.wf(),
            scheduled(state).insert(task) == scheduled(self.state),
        ensures
            self.runnables.contains_key(task),
            self.without(state, task).wf(),
    {
        assert(scheduled(self.state).count(task) == scheduled(state).count(task) + 1);
        assert forall|t: u64| #[trigger]
            scheduled(state).count(t) == if self.runnables.remove(task).contains_key(t) {
                1nat
            } else {
                0
            } by {
            assert(scheduled(self.state).count(t) == if t == task {
                scheduled(state).count(t) + 1
            } else {
                scheduled(state).count(t)
            });
        }
    }

    /// Taking a runner out, and the runnables of its shard with it, keeps the invariant.
    pub proof fn lemma_without_runner_wf(self, runner: RunnerView)
        requires
            self.wf(),
            runner.attached(self.state),
        ensures
            self.without_runner(runner).wf(),
    {
        let own = self.state.shard_index(runner.shard);
        assert(self.state.shard_at(runner.shard, own));
        let tasks = self.state.shards[own].tasks;
        let after = self.without_runner(runner);
        self.state.lemma_shard_removed_wf(own);
        law_runner_drop_takes_shard(self.state, own);
        assert forall|task: u64| #[trigger]
            scheduled(after.state).count(task) == if after.runnables.contains_key(task) {
                1nat
            } else {
                0
            } by {
            broadcast use vstd::seq_lib::group_to_multiset_ensures;

            assert(scheduled(after.state).add(tasks.to_multiset()).count(task) == scheduled(
                self.state,
            ).count(task));
            assert(tasks.contains(task) <==> tasks.to_multiset().count(task) > 0);
        }
    }

    /// A state with the same scheduled tasks keeps the invariant.
    pub proof fn lemma_with_state_wf(self, state: StateView)
        requires
            self.wf(),
            state.wf(),
            scheduled(state) == scheduled(self.state),
        ensures
            self.with_state(state).wf(),
    {
    }
}

/// A runnable to run, and what has to be done about it.
pub struct Job<R> {
    /// The ticker to wake before the runnable is run.
    pub waker: Option<Waker>,
    /// The runnable to run.
    pub runnable: R,
}

/// A runnable that a runner has found.
///
/// The caller wakes the waker, and then gets the runnable to run from [`Executor::bump`].
pub struct Found<R> {
    /// What has to be done.
    job: Job<R>,
}

impl<R> View for Found<R> {
    type V = Job<R>;

    closed spec fn view(&self) -> Job<R> {
        self.job
    }
}

impl<R> Found<R> {
    /// Takes the waker of a ticker, which the caller has to wake before the runner goes on.
    pub fn take_waker(&mut self) -> (waker: Option<Waker>)
        ensures
            waker == old(self)@.waker,
            final(self)@ == (Job { waker: None, ..old(self)@ }),
    {
        self.job.waker.take()
    }
}

/// What a [`Leaving`] runner holds.
#[verifier::ext_equal]
pub struct LeavingView<R> {
    /// The ID of the runner's ticker when in sleeping state.
    pub sleeping: Option<u64>,
    /// The runnables to schedule again, the next one in front.
    pub runnables: Seq<R>,
}

/// A runner that goes away: its shard is out of the executor already.
pub struct Leaving<R> {
    /// The ticker of the runner, until it has gone away too.
    ticker: Option<Ticker>,
    /// The runnables that remain of the runner's shard.
    runnables: VecDeque<R>,
}

impl<R> View for Leaving<R> {
    type V = LeavingView<R>;

    closed spec fn view(&self) -> LeavingView<R> {
        LeavingView {
            sleeping: match self.ticker {
                Some(ticker) => ticker@,
                None => None,
            },
            runnables: self.runnables@,
        }
    }
}

/// The tasks that are run until other futures get a turn.
pub struct Batch {
    /// How many tasks are left.
    left: usize,
}

impl View for Batch {
    type V = nat;

    closed spec fn view(&self) -> nat {
        self.left as nat
    }
}

impl Batch {
    /// Creates a batch of which no task was run.
    pub fn new() -> (batch: Batch)
        ensures
            batch@ == BATCH_SIZE,
    {
        Batch { left: BATCH_SIZE }
    }
}

/// What has to be done next to run an executor.
pub enum RunStep<R> {
    /// Wake the waker, get the runnable from [`Executor::bump`], run it and go on.
    Run(Found<R>),
    /// Wait until woken.
    Wait,
    /// Wake up the own waker, so that there is another turn, and wait.
    Yield,
}

/// An async executor.
///
/// The executor schedules runnables of type `R`. It decides what is to be run and who is to be
/// woken; the caller does both after each call.
pub struct Executor<R> {
    /// The queues and the sleeping tickers.
    state: State,
    /// The runnables by number.
    runnables: HashMap<u64, R>,
    /// Number generator for runnables.
    next_task: u64,
}

impl<R> View for Executor<R> {
    type V = ExecutorView<R>;

    closed spec fn view(&self) -> ExecutorView<R> {
        ExecutorView {
            state: self.state@,
            runnables: self.runnables@,
            next_task: self.next_task as nat,
        }
    }
}

impl<R> Executor<R> {
    /// The queues take tasks.
    pub closed spec fn open_for_tasks(&self) -> bool {
        self.state.open_for_tasks()
    }

    /// The invariant of the executor.
    pub open spec fn wf(&self) -> bool {
        self@.wf() && self.open_for_tasks()
    }

    /// Creates a new executor.
    pub fn new() -> (executor: Executor<R>)
        ensures
            executor.wf(),
            executor@ == ExecutorView::<R>::initial(),
    {
        let executor = Executor { state: State::new(), runnables: HashMap::new(), next_task: 0 };
        proof {
            broadcast use vstd::seq_lib::group_to_multiset_ensures;

            assert(executor@ == ExecutorView::<R>::initial());
            assert(Seq::<u64>::empty().to_multiset() =~= Multiset::empty());
        }
        executor
    }

    /// There is a number left for another runnable.
    pub fn can_schedule(&self) -> (ok: bool)
        ensures
            ok == (self@.next_task < u64::MAX),
    {
        self.next_task < u64::MAX
    }

    /// Schedules a runnable when it gets woken up.
    ///
    /// Returns the waker of a sleeping ticker, which the caller has to wake.
    pub fn schedule(&mut self, runnable: R) -> (waker: Option<Waker>)
        requires
            old(self).wf(),
            old(self)@.next_task < u64::MAX,
        ensures
            final(self).wf(),
            final(self)@ == old(self)@.after_schedule(runnable),
            waker == old(self)@.state.notify_waker(),
    {
        broadcast use vstd::std_specs::hash::group_hash_axioms;

        let task: u64 = self.next_task;
        self.next_task += 1;
        self.runnables.insert(task, runnable);
        let waker = self.state.schedule(task);
        proof {
            law_schedule_adds_task(old(self)@.state, task);
            assert(self@ == old(self)@.after_schedule(runnable));
            assert(!old(self)@.runnables.contains_key(task));
        }
        waker
    }

    /// Hands out the runnable that has number `task`.
    fn take(&mut self, tick: Tick) -> (job: Job<R>)
        requires
            old(self)@.runnables.contains_key(tick.task),
        ensures
            final(self)@ == old(self)@.without(old(self)@.state, tick.task),
            final(self).open_for_tasks() == old(self).open_for_tasks(),
            job == old(self)@.job(tick),
    {
        broadcast use vstd::std_specs::hash::group_hash_axioms;

        let runnable = self.runnables.remove(&tick.task).unwrap();
        assert(self@.runnables == old(self)@.runnables.remove(tick.task));
        Job { waker: tick.waker, runnable }
    }

    /// Attempts to run a task if at least one is scheduled.
    ///
    /// Returns the task for the caller to run.
    pub fn try_tick(&mut self) -> (job: Option<Job<R>>)
        requires
            old(self).wf(),
        ensures
            final(self).wf(),
            old(self)@.try_ticked(job, final(self)@),
    {
        match self.state.pop() {
            None => None,
            Some(task) => {
                // Notify another ticker now to pick up where this ticker left off, just in case
                // running the task takes a long time.
                let waker = self.state.notify();
                let ghost pre = old(self)@;
                proof {
                    law_pop_takes_task(pre.state);
                    pre.state.popped().lemma_notify();
                    pre.lemma_without_wf(pre.state.popped().after_notify(), task);
                }
                let job = self.take(Tick { waker, task });
                assert(self@ == pre.without(pre.state.popped().after_notify(), task));
                Some(job)
            },
        }
    }

    /// Runs a single task.
    ///
    /// Returns the task for the caller to run. If there is none in the global queue, the ticker
    /// goes to sleep and `None` is returned: `waker` gets woken when there may be one.
    pub fn tick(&mut self, ticker: &mut Ticker, waker: &Waker) -> (job: Option<Job<R>>)
        requires
            old(self).wf(),
            is_registered(old(ticker)@, old(self)@.state),
            old(self)@.state.queue.len() == 0 ==> can_sleep(old(ticker)@, old(self)@.state),
        ensures
            final(self).wf(),
            is_registered(final(ticker)@, final(self)@.state),
            old(self)@.ticked(old(ticker)@, *waker, job, final(ticker)@, final(self)@),
    {
        let ghost pre = self@;
        let ghost sleeping = ticker@;
        let polled = ticker.poll_tick(&mut self.state, waker);
        let ghost state = self.state@;
        match polled {
            None => {
                proof {
                    law_tickers_leave_tasks(pre.state, sleeping, *waker);
                    pre.lemma_with_state_wf(state);
                    assert(self@ == pre.with_state(state));
                }
                None
            },
            Some(tick) => {
                proof {
                    law_pop_takes_task(pre.state);
                    law_tickers_leave_tasks(pre.state.popped(), sleeping, *waker);
                    law_tickers_leave_tasks(
                        after_wake(sleeping, pre.state.popped()),
                        sleeping,
                        *waker,
                    );
                    pre.lemma_without_wf(state, tick.task);
                }
                let job = self.take(tick);
                assert(self@ == pre.without(state, tick.task));
                Some(job)
            },
        }
    }

    /// Registers a runner, which is to run the executor.
    pub fn add_runner(&mut self) -> (runner: Runner)
        requires
            old(self).wf(),
            old(self)@.state.next_shard < u64::MAX,
        ensures
            final(self).wf(),
            final(self)@ == old(self)@.with_state(old(self)@.state.shard_added()),
            runner@ == (RunnerView {
                sleeping: None,
                shard: old(self)@.state.next_shard as u64,
                ticks: 0,
            }),
            runner@.attached(final(self)@.state),
    {
        let ghost pre = self@;
        let runner = Runner::new(&mut self.state);
        proof {
            law_new_runner_keeps_tasks(pre.state);
            pre.lemma_with_state_wf(self.state@);
            assert(self@ == pre.with_state(self.state@));
        }
        runner
    }

    /// Runs the executor.
    ///
    /// Returns what is to be done next. If no task is scheduled, the runner goes to sleep: `waker`
    /// gets woken when there may be one.
    pub fn run(&mut self, runner: &mut Runner, batch: &mut Batch, waker: &Waker) -> (step: RunStep<
        R,
    >)
        requires
            old(self).wf(),
            old(runner)@.attached(old(self)@.state),
            old(self)@.state.is_idle() ==> can_sleep(old(runner)@.sleeping, old(self)@.state),
        ensures
            final(self).wf(),
            final(runner)@.attached(final(self)@.state),
            old(self)@.ran(
                old(runner)@,
                old(batch)@,
                *waker,
                step,
                final(runner)@,
                final(batch)@,
                final(self)@,
            ),
    {
        // If there are more tasks, yield.
        if batch.left == 0 {
            return RunStep::Yield;
        }
        let ghost pre = self@;
        let ghost running = runner@;
        let polled = runner.poll_tick(&mut self.state, waker);
        let ghost state = self.state@;
        match polled {
            None => {
                proof {
                    law_tickers_leave_tasks(pre.state, running.sleeping, *waker);
                    pre.lemma_with_state_wf(state);
                    assert(self@ == pre.with_state(state));
                }
                RunStep::Wait
            },
            Some(tick) => {
                batch.left -= 1;
                let ghost start = choose|start: int|
                    0 <= start < pre.state.shards.len() && #[trigger] found(
                        running,
                        pre.state,
                        start,
                        tick,
                        runner@,
                        state,
                    );
                proof {
                    lemma_found_takes_task(running, pre.state, start, tick, runner@, state);
                    pre.lemma_without_wf(state, tick.task);
                }
                let job = self.take(tick);
                let found_job = Found { job };
                proof {
                    assert(self@ == pre.without(state, tick.task));
                    assert(found(
                        old(runner)@,
                        old(self)@.state,
                        start,
                        tick,
                        runner@,
                        self@.state,
                    ));
                    assert(found_job@ == pre.job(tick));
                }
                RunStep::Run(found_job)
            },
        }
    }

    /// Lets a runner count the task that it has found, and steal from the global queue at regular
    /// intervals.
    ///
    /// The caller has woken the waker that came with the task. Returns the task for the caller to
    /// run.
    pub fn bump(&mut self, runner: &mut Runner, found_job: Found<R>) -> (runnable: R)
        requires
            old(self).wf(),
            old(runner)@.attached(old(self)@.state),
        ensures
            final(self).wf(),
            final(runner)@.attached(final(self)@.state),
            final(runner)@ == old(runner)@.after_bump(),
            final(self)@ == old(self)@.with_state(
                old(runner)@.state_after_bump(old(self)@.state),
            ),
            runnable == found_job@.runnable,
    {
        let ghost pre = self@;
        let ghost running = runner@;
        runner.bump(&mut self.state);
        proof {
            law_bump_keeps_tasks(running, pre.state);
            pre.lemma_with_state_wf(self.state@);
            assert(self@ == pre.with_state(self.state@));
        }
        found_job.job.runnable
    }

    /// Takes a ticker out of the executor.
    ///
    /// Returns the waker of another ticker, which the caller has to wake.
    pub fn drop_ticker(&mut self, ticker: Ticker) -> (waker: Option<Waker>)
        requires
            old(self).wf(),
            is_registered(ticker@, old(self)@.state),
        ensures
            final(self).wf(),
            final(self)@ == old(self)@.with_state(after_drop(ticker@, old(self)@.state)),
            waker == drop_waker(ticker@, old(self)@.state),
    {
        let ghost pre = self@;
        let waker = ticker.drop(&mut self.state);
        proof {
            pre.lemma_with_state_wf(self.state@);
            assert(self@ == pre.with_state(self.state@));
        }
        waker
    }

    /// Takes a runner out of the executor.
    ///
    /// The caller goes on with [`Executor::leave`], which schedules the tasks of the runner's shard
    /// again.
    pub fn drop_runner(&mut self, runner: Runner) -> (leaving: Leaving<R>)
        requires
            old(self).wf(),
            runner@.attached(old(self)@.state),
        ensures
            final(self).wf(),
            final(self)@ == old(self)@.without_runner(runner@),
            leaving@ == (LeavingView {
                sleeping: runner@.sleeping,
                runnables: old(self)@.runnables_of(
                    old(self)@.state.shards[old(self)@.state.shard_index(runner@.shard)].tasks,
                ),
            }),
            is_registered(leaving@.sleeping, final(self)@.state),
    {
        broadcast use vstd::std_specs::hash::group_hash_axioms;

        let ghost pre = self@;
        let ghost own = pre.state.shard_index(runner@.shard);

        // Remove the shard.
        let (ticker, mut shard) = runner.drop(&mut self.state);
        let ghost tasks = shard@.tasks;
        let ghost removed = self.state@;
        let mut runnables: VecDeque<R> = VecDeque::new();
        let ghost mut done: int = 0;
        proof {
            assert(pre.state.shard_at(runner@.shard, own));
            law_runner_drop_takes_shard(pre.state, own);
            assert(tasks.skip(0) == tasks);
            assert(pre.runnables.remove_keys(tasks.take(0).to_set()) =~= pre.runnables);
            assert forall|task: u64| #[trigger]
                scheduled(removed).count(task) + tasks.skip(0).to_multiset().count(task)
                    == scheduled(pre.state).count(task) by {
                assert(scheduled(removed).add(tasks.to_multiset()).count(task) == scheduled(
                    pre.state,
                ).count(task));
            }
        }

        // Take the remaining tasks in the shard.
        loop
            invariant
                self.open_for_tasks(),
                self@.state == removed,
                self@.next_task == pre.next_task,
                removed.wf(),
                pre.wf(),
                0 <= done <= tasks.len(),
                shard@.tasks == tasks.skip(done),
                self@.runnables == pre.runnables.remove_keys(tasks.take(done).to_set()),
                runnables@ == pre.runnables_of(tasks.take(done)),
                forall|task: u64| #[trigger]
                    scheduled(removed).count(task) + tasks.skip(done).to_multiset().count(task)
                        == if self@.runnables.contains_key(task) {
                        1nat
                    } else {
                        0
                    },
            ensures
                done == tasks.len(),
            decreases tasks.len() - done,
        {
            match shard.pop() {
                Some(task) => {
                    let ghost before = self@.runnables;
                    proof {
                        lemma_first(tasks.skip(done));
                        assert(tasks.skip(done).skip(1) == tasks.skip(done + 1));
                        assert(tasks.skip(done + 1).to_multiset().insert(task)
                            == tasks.skip(done).to_multiset());
                        assert(scheduled(removed).count(task) + tasks.skip(
                            done,
                        ).to_multiset().count(task) > 0);
                        assert(before.contains_key(task));
                    }
                    let runnable = self.runnables.remove(&task).unwrap();
                    runnables.push_back(runnable);
                    proof {
                        assert(tasks.take(done + 1) == tasks.take(done).push(task));
                        assert forall|t: u64|
                            tasks.take(done + 1).to_set().contains(t) <==> (tasks.take(
                                done,
                            ).to_set().contains(t) || t == task) by {
                            if tasks.take(done).contains(t) {
                                let i = tasks.take(done).index_of(t);
                                assert(tasks.take(done + 1)[i] == t);
                            }
                            if t == task {
                                assert(tasks.take(done + 1)[done] == t);
                            }
                        }
                        assert(self@.runnables =~= before.remove(task));
                        assert(self@.runnables =~= pre.runnables.remove_keys(
                            tasks.take(done + 1).to_set(),
                        ));
                        assert(runnables@ =~= pre.runnables_of(tasks.take(done + 1)));
                        assert forall|t: u64| #[trigger]
                            scheduled(removed).count(t) + tasks.skip(done + 1).to_multiset().count(
                                t,
                            ) == if self@.runnables.contains_key(t) {
                                1nat
                            } else {
                                0
                            } by {
                            assert(scheduled(removed).count(t) + tasks.skip(
                                done,
                            ).to_multiset().count(t) == if before.contains_key(t) {
                                1nat
                            } else {
                                0
                            });
                        }
                        done = done + 1;
                    }
                },
                None => {
                    break;
                },
            }
        }
        let leaving = Leaving { ticker: Some(ticker), runnables };
        proof {
            assert(tasks.take(done) == tasks);
            pre.lemma_without_runner_wf(runner@);
            assert(self@ =~= pre.without_runner(runner@));
        }
        leaving
    }

    /// There are numbers left for the runnables that a leaving runner schedules again.
    pub fn can_leave(&self, leaving: &Leaving<R>) -> (ok: bool)
        ensures
            ok == (self@.next_task + leaving@.runnables.len() <= u64::MAX),
    {
        leaving.runnables.len() as u64 <= u64::MAX - self.next_task
    }

    /// Schedules the tasks that remain of a leaving runner's shard, and then takes its ticker out of
    /// the executor.
    ///
    /// Returns the waker of another ticker, if there is one to wake. The caller wakes it and calls
    /// again, until `None` is returned.
    pub fn leave(&mut self, leaving: &mut Leaving<R>) -> (waker: Option<Waker>)
        requires
            old(self).wf(),
            is_registered(old(leaving)@.sleeping, old(self)@.state),
            old(self)@.next_task + old(leaving)@.runnables.len() <= u64::MAX,
        ensures
            final(self).wf(),
            is_registered(final(leaving)@.sleeping, final(self)@.state),
            old(self)@.left(old(leaving)@, waker, final(leaving)@, final(self)@),
    {
        let ghost pre = self@;
        let ghost sleeping = leaving@.sleeping;
        let ghost rest = leaving@.runnables;
        let ghost mut done: int = 0;
        proof {
            pre.state.lemma_notify();
            assert(rest.skip(0) == rest);
        }

        // Re-schedule remaining tasks in the shard.
        loop
            invariant
                self.wf(),
                pre == old(self)@,
                rest == old(leaving)@.runnables,
                sleeping == old(leaving)@.sleeping,
                pre.state.notify_waker() is Some <==> !pre.state.notified,
                is_registered(sleeping, self@.state),
                0 <= done <= rest.len(),
                self@ == pre.after_schedule_all(rest.take(done)),
                self@.next_task + rest.len() - done <= u64::MAX,
                self@.state.notified == pre.state.notified,
                done > 0 ==> pre.state.notified,
                leaving@ == (LeavingView { sleeping, runnables: rest.skip(done) }),
            ensures
                done == rest.len(),
            decreases rest.len() - done,
        {
            match leaving.runnables.pop_front() {
                Some(runnable) => {
                    proof {
                        assert(rest.take(done + 1).drop_last() == rest.take(done));
                        assert(rest.take(done + 1).last() == runnable);
                        assert(leaving@.runnables =~= rest.skip(done + 1));
                        if done == 0 {
                            assert(rest.take(0) == Seq::<R>::empty());
                        }
                    }
                    if let Some(waker) = self.schedule(runnable) {
                        return Some(waker);
                    }
                    proof {
                        done = done + 1;
                    }
                },
                None => {
                    break;
                },
            }
        }
        assert(rest.take(done) == rest);
        match leaving.ticker.take() {
            Some(ticker) => {
                let waker = self.drop_ticker(ticker);
                assert(leaving@ =~= (LeavingView { sleeping: None, runnables: Seq::<R>::empty() }));
                waker
            },
            None => {
                assert(leaving@ =~= (LeavingView { sleeping: None, runnables: Seq::<R>::empty() }));
                None
            },
        }
    }

    /// Spawns a task onto the executor.
    ///
    /// Takes the runnable and the join handle of a new task. Returns the task and the waker of a
    /// sleeping ticker, which the caller has to wake.
    pub fn spawn<H>(&mut self, runnable: R, handle: H) -> (spawned: (Task<H>, Option<Waker>))
        requires
            old(self).wf(),
            old(self)@.next_task < u64::MAX,
        ensures
            final(self).wf(),
            final(self)@ == old(self)@.after_schedule(runnable),
            spawned.0@ == Some(handle),
            spawned.1 == old(self)@.state.notify_waker(),
    {
        // Push the task into the queue by scheduling it, and return its `Task` handle.
        let waker = self.schedule(runnable);
        (Task::new(handle), waker)
    }

    /// There is a number left for another runner.
    pub fn can_add_runner(&self) -> (ok: bool)
        ensures
            ok == (self@.state.next_shard < u64::MAX),
    {
        self.state.can_add_shard()
    }

    /// There is room and an ID left for another sleeping ticker.
    pub fn can_sleep(&self) -> (ok: bool)
        ensures
            ok == (self@.state.sleepers.id_gen < u64::MAX && self@.state.sleepers.count
                < usize::MAX),
    {
        self.state.can_sleep()
    }
}

impl<R> Default for Executor<R> {
    fn default() -> (executor: Executor<R>)
        ensures
            executor.wf(),
            executor@ == ExecutorView::<R>::initial(),
    {
        Executor::new()
    }
}

/// A thread-local executor.
///
/// It does what its inner executor does. The executor can only be run on the thread that created
/// it, which is for the caller to see to.
pub struct LocalExecutor<R> {
    /// The inner executor.
    inner: Executor<R>,
}

impl<R> View for LocalExecutor<R> {
    type V = ExecutorView<R>;

    closed spec fn view(&self) -> ExecutorView<R> {
        self.inner@
    }
}

impl<R> LocalExecutor<R> {
    /// The inner executor.
    pub closed spec fn inner_executor(&self) -> Executor<R> {
        self.inner
    }

    /// The invariant of the executor.
    pub closed spec fn wf(&self) -> bool {
        self.inner.wf()
    }

    /// Creates a single-threaded executor.
    pub fn new() -> (executor: LocalExecutor<R>)
        ensures
            executor.wf(),
            executor@ == ExecutorView::<R>::initial(),
    {
        LocalExecutor { inner: Executor::new() }
    }

    /// Spawns a task onto the executor.
    ///
    /// Takes the runnable and the join handle of a new task. Returns the task and the waker of a
    /// sleeping ticker, which the caller has to wake.
    pub fn spawn<H>(&mut self, runnable: R, handle: H) -> (spawned: (Task<H>, Option<Waker>))
        requires
            old(self).wf(),
            old(self)@.next_task < u64::MAX,
        ensures
            final(self).wf(),
            final(self)@ == old(self)@.after_schedule(runnable),
            spawned.0@ == Some(handle),
            spawned.1 == old(self)@.state.notify_waker(),
    {
        self.inner.spawn(runnable, handle)
    }

    /// Attempts to run a task if at least one is scheduled.
    ///
    /// Returns the task for the caller to run.
    pub fn try_tick(&mut self) -> (job: Option<Job<R>>)
        requires
            old(self).wf(),
        ensures
            final(self).wf(),
            old(self)@.try_ticked(job, final(self)@),
    {
        self.inner.try_tick()
    }

    /// Runs a single task.
    ///
    /// Returns the task for the caller to run. If there is none in the global queue, the ticker
    /// goes to sleep and `None` is returned: `waker` gets woken when there may be one.
    pub fn tick(&mut self, ticker: &mut Ticker, waker: &Waker) -> (job: Option<Job<R>>)
        requires
            old(self).wf(),
            is_registered(old(ticker)@, old(self)@.state),
            old(self)@.state.queue.len() == 0 ==> can_sleep(old(ticker)@, old(self)@.state),
        ensures
            final(self).wf(),
            is_registered(final(ticker)@, final(self)@.state),
            old(self)@.ticked(old(ticker)@, *waker, job, final(ticker)@, final(self)@),
    {
        self.inner.tick(ticker, waker)
    }

    /// Runs the executor.
    ///
    /// Returns what is to be done next. If no task is scheduled, the runner goes to sleep: `waker`
    /// gets woken when there may be one.
    pub fn run(&mut self, runner: &mut Runner, batch: &mut Batch, waker: &Waker) -> (step: RunStep<
        R,
    >)
        requires
            old(self).wf(),
            old(runner)@.attached(old(self)@.state),
            old(self)@.state.is_idle() ==> can_sleep(old(runner)@.sleeping, old(self)@.state),
        ensures
            final(self).wf(),
            final(runner)@.attached(final(self)@.state),
            old(self)@.ran(
                old(runner)@,
                old(batch)@,
                *waker,
                step,
                final(runner)@,
                final(batch)@,
                final(self)@,
            ),
    {
        self.inner.run(runner, batch, waker)
    }

    /// Schedules a runnable when it gets woken up.
    ///
    /// Returns the waker of a sleeping ticker, which the caller has to wake.
    pub fn schedule(&mut self, runnable: R) -> (waker: Option<Waker>)
        requires
            old(self).wf(),
            old(self)@.next_task < u64::MAX,
        ensures
            final(self).wf(),
            final(self)@ == old(self)@.after_schedule(runnable),
            waker == old(self)@.state.notify_waker(),
    {
        self.inner.schedule(runnable)
    }

    /// Returns a reference to the inner executor.
    pub fn inner(&mut self) -> (inner: &mut Executor<R>)
        ensures
            *inner == old(self).inner_executor(),
            final(self).inner_executor() == *final(inner),
            inner@ == old(self)@,
            final(self)@ == final(inner)@,
            old(self).wf() == inner.wf(),
            final(self).wf() == final(inner).wf(),
    {
        &mut self.inner
    }
}

impl<R> Default for LocalExecutor<R> {
    fn default() -> (executor: LocalExecutor<R>)
        ensures
            executor.wf(),
            executor@ == ExecutorView::<R>::initial(),
    {
        LocalExecutor::new()
    }
}

/// A runner that finds a task takes it off the scheduled tasks, and nothing else.
pub proof fn lemma_found_takes_task(
    runner: RunnerView,
    state: StateView,
    start: int,
    tick: Tick,
    runner_after: RunnerView,
    state_after: StateView,
)
    requires
        state.wf(),
        runner.attached(state),
        0 <= start < state.shards.len(),
        found(runner, state, start, tick, runner_after, state_after),
    ensures
        scheduled(state_after).insert(tick.task) == scheduled(state),
{
    let own = state.shard_index(runner.shard);
    assert(state.shard_at(runner.shard, own));
    let searched = after_search(state, own, start);
    lemma_after_search(state, own, start);
    law_search_takes_task(state, own, start);
    law_dispatch_keeps_tasks(runner, searched);
}

} // verus!
