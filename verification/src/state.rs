//! The state of an executor.

use crate::queue::{
    queue_bounded, queue_closed, queue_items, queue_limit, queue_pop, queue_push, queue_unbounded,
    steal, steal_count,
};
use crate::sleepers::{Sleepers, SleepersView};
use concurrent_queue::ConcurrentQueue;
use std::task::Waker;
use vstd::prelude::*;

verus! {

/// How many tasks a shard holds.
pub const SHARD_CAPACITY: usize = 512;

/// What a [`Shard`] holds.
#[verifier::ext_equal]
pub struct ShardView {
    /// The number of the shard.
    pub id: u64,
    /// The tasks in the shard, the next one to run in front.
    pub tasks: Seq<u64>,
}

/// What a [`State`] holds.
#[verifier::ext_equal]
pub struct StateView {
    /// The tasks in the global queue, the next one to run in front.
    pub queue: Seq<u64>,
    /// The shards of the global queue.
    pub shards: Seq<ShardView>,
    /// A sleeping ticker is notified, or no ticker sleeps.
    pub notified: bool,
    /// The sleeping tickers.
    pub sleepers: SleepersView,
    /// The number that the next shard gets.
    pub next_shard: nat,
}

impl StateView {
    /// The state of a new executor.
    pub open spec fn initial() -> Self {
        StateView {
            queue: Seq::empty(),
            shards: Seq::empty(),
            notified: true,
            sleepers: SleepersView::empty(),
            next_shard: 0,
        }
    }

    /// The invariant of the state.
    pub open spec fn wf(self) -> bool {
        &&& self.sleepers.wf()
        &&& self.notified == self.sleepers.is_notified()
        &&& forall|i: int, j: int|
            0 <= i < j < self.shards.len() ==> #[trigger] self.shards[i].id
                != #[trigger] self.shards[j].id
        &&& forall|i: int|
            0 <= i < self.shards.len() ==> (#[trigger] self.shards[i]).id < self.next_shard
        &&& forall|i: int|
            0 <= i < self.shards.len() ==> (#[trigger] self.shards[i]).tasks.len()
                <= SHARD_CAPACITY
    }

    /// Shard `id` stands at position `i`.
    pub open spec fn shard_at(self, id: u64, i: int) -> bool {
        0 <= i < self.shards.len() && self.shards[i].id == id
    }

    /// There is a shard with number `id`.
    pub open spec fn has_shard(self, id: u64) -> bool {
        exists|i: int| self.shard_at(id, i)
    }

    /// Where shard `id` stands.
    pub open spec fn shard_index(self, id: u64) -> int {
        choose|i: int| self.shard_at(id, i)
    }

    /// The state with other sleeping tickers, and the flag set to match.
    pub open spec fn with_sleepers(self, sleepers: SleepersView) -> Self {
        StateView { sleepers, notified: sleepers.is_notified(), ..self }
    }

    /// The state with `tasks` in the shard at position `i`.
    pub open spec fn with_shard(self, i: int, tasks: Seq<u64>) -> Self {
        StateView {
            shards: self.shards.update(i, ShardView { tasks, ..self.shards[i] }),
            ..self
        }
    }

    /// The state after one sleeping ticker has been notified, if that is called for.
    pub open spec fn after_notify(self) -> Self {
        if self.notified {
            self
        } else {
            StateView { notified: true, sleepers: self.sleepers.after_notify(), ..self }
        }
    }

    /// The waker that a notification calls for.
    pub open spec fn notify_waker(self) -> Option<Waker> {
        if self.notified {
            None
        } else {
            self.sleepers.notify_waker()
        }
    }

    /// The state with `task` behind all tasks of the global queue.
    pub open spec fn pushed(self, task: u64) -> Self {
        StateView { queue: self.queue.push(task), ..self }
    }

    /// The state without the first task of the global queue.
    pub open spec fn popped(self) -> Self {
        StateView { queue: self.queue.skip(1), ..self }
    }

    /// The state without the first task of the shard at position `i`.
    pub open spec fn shard_popped(self, i: int) -> Self {
        self.with_shard(i, self.shards[i].tasks.skip(1))
    }

    /// How many tasks the shard at position `i` still takes.
    pub open spec fn room(self, i: int) -> nat {
        (SHARD_CAPACITY - self.shards[i].tasks.len()) as nat
    }

    /// The state after the shard at position `to` has stolen from the global queue.
    pub open spec fn stolen_global(self, to: int) -> Self {
        let count = steal_count(self.queue.len(), Some(self.room(to))) as int;
        StateView { queue: self.queue.skip(count), ..self }.with_shard(
            to,
            self.shards[to].tasks + self.queue.take(count),
        )
    }

    /// The state after the shard at position `to` has stolen from the one at position `from`.
    pub open spec fn stolen_shard(self, from: int, to: int) -> Self {
        let tasks = self.shards[from].tasks;
        let count = steal_count(tasks.len(), Some(self.room(to))) as int;
        self.with_shard(from, tasks.skip(count)).with_shard(
            to,
            self.shards[to].tasks + tasks.take(count),
        )
    }

    /// The state with a new, empty shard behind the others.
    pub open spec fn shard_added(self) -> Self {
        StateView {
            shards: self.shards.push(
                ShardView { id: self.next_shard as u64, tasks: Seq::empty() },
            ),
            next_shard: self.next_shard + 1,
            ..self
        }
    }

    /// The state without the shard at position `i`.
    pub open spec fn shard_removed(self, i: int) -> Self {
        StateView { shards: self.shards.remove(i), ..self }
    }

    /// No task is scheduled: all queues are empty.
    pub open spec fn is_idle(self) -> bool {
        &&& self.queue.len() == 0
        &&& forall|i: int| 0 <= i < self.shards.len() ==> (#[trigger] self.shards[i]).tasks.len() == 0
    }

    /// A position that holds shard `id` is the position of shard `id`.
    pub proof fn lemma_shard_index(self, id: u64, i: int)
        requires
            self.wf(),
            self.shard_at(id, i),
        ensures
            self.has_shard(id),
            self.shard_index(id) == i,
    {
        let k = self.shard_index(id);
        assert(self.shard_at(id, k));
        if k < i {
            assert(self.shards[k].id != self.shards[i].id);
        } else if i < k {
            assert(self.shards[i].id != self.shards[k].id);
        }
    }

    /// States with the same shards agree on the place of each.
    pub proof fn lemma_same_shards(self, other: StateView, id: u64)
        requires
            self.wf(),
            other.wf(),
            self.shards == other.shards,
            self.has_shard(id),
        ensures
            other.has_shard(id),
            self.shard_index(id) == other.shard_index(id),
    {
        let i = self.shard_index(id);
        assert(self.shard_at(id, i));
        assert(other.shard_at(id, i));
        other.lemma_shard_index(id, i);
    }

    /// A notification keeps the invariant, and wakes a ticker exactly if the flag was not set.
    pub proof fn lemma_notify(self)
        requires
            self.wf(),
        ensures
            self.after_notify().wf(),
            self.after_notify().notified,
            self.notify_waker() is Some <==> !self.notified,
    {
        if !self.notified {
            self.sleepers.lemma_waiting_sleep();
            assert(self.sleepers.can_notify());
        }
    }

    /// Other tasks in a shard, not more than it holds, keep the invariant.
    pub proof fn lemma_with_shard_wf(self, i: int, tasks: Seq<u64>)
        requires
            self.wf(),
            0 <= i < self.shards.len(),
            tasks.len() <= SHARD_CAPACITY,
        ensures
            self.with_shard(i, tasks).wf(),
    {
        let post = self.with_shard(i, tasks);
        assert forall|k: int| 0 <= k < post.shards.len() implies (#[trigger] post.shards[k]).id
            == self.shards[k].id && post.shards[k].tasks.len() <= SHARD_CAPACITY by {}
        assert forall|j: int, k: int| 0 <= j < k < post.shards.len() implies #[trigger] post.shards[j].id
            != #[trigger] post.shards[k].id by {
            assert(self.shards[j].id != self.shards[k].id);
        }
    }

    /// Stealing keeps the invariant.
    pub proof fn lemma_stolen_wf(self, from: int, to: int)
        requires
            self.wf(),
            0 <= to < self.shards.len(),
        ensures
            self.stolen_global(to).wf(),
            0 <= from < self.shards.len() && from != to ==> self.stolen_shard(from, to).wf(),
    {
        let count = steal_count(self.queue.len(), Some(self.room(to))) as int;
        let pre = StateView { queue: self.queue.skip(count), ..self };
        assert(pre.wf());
        pre.lemma_with_shard_wf(to, self.shards[to].tasks + self.queue.take(count));
        if 0 <= from < self.shards.len() && from != to {
            let tasks = self.shards[from].tasks;
            let count = steal_count(tasks.len(), Some(self.room(to))) as int;
            let pre = self.with_shard(from, tasks.skip(count));
            self.lemma_with_shard_wf(from, tasks.skip(count));
            pre.lemma_with_shard_wf(to, self.shards[to].tasks + tasks.take(count));
        }
    }

    /// A new shard keeps the invariant.
    pub proof fn lemma_shard_added_wf(self)
        requires
            self.wf(),
            self.next_shard <= u64::MAX,
        ensures
            self.shard_added().wf(),
    {
        let post = self.shard_added();
        assert forall|k: int| 0 <= k < self.shards.len() implies #[trigger] post.shards[k]
            == self.shards[k] by {}
        assert forall|j: int, k: int| 0 <= j < k < post.shards.len() implies #[trigger] post.shards[j].id
            != #[trigger] post.shards[k].id by {
            assert(self.shards[j].id < self.next_shard);
            if k < self.shards.len() {
                assert(self.shards[j].id != self.shards[k].id);
            }
        }
    }

    /// Removing a shard keeps the invariant.
    pub proof fn lemma_shard_removed_wf(self, i: int)
        requires
            self.wf(),
            0 <= i < self.shards.len(),
        ensures
            self.shard_removed(i).wf(),
    {
        let post = self.shard_removed(i);
        assert forall|k: int| 0 <= k < post.shards.len() implies #[trigger] post.shards[k]
            == self.shards[if k < i { k } else { k + 1 }] by {}
        assert forall|j: int, k: int| 0 <= j < k < post.shards.len() implies #[trigger] post.shards[j].id
            != #[trigger] post.shards[k].id by {
            let from_j = if j < i { j } else { j + 1 };
            let from_k = if k < i { k } else { k + 1 };
            assert(self.shards[from_j].id != self.shards[from_k].id);
        }
    }
}

/// A shard of the global queue.
pub struct Shard {
    /// The number of the shard, by which its runner finds it.
    id: u64,
    /// The tasks in the shard.
    queue: ConcurrentQueue<u64>,
}

impl View for Shard {
    type V = ShardView;

    closed spec fn view(&self) -> ShardView {
        ShardView { id: self.id, tasks: queue_items(self.queue) }
    }
}

impl Shard {
    /// The queue of the shard takes tasks, as many as a shard holds.
    pub closed spec fn open_for_tasks(&self) -> bool {
        &&& queue_limit(self.queue) == Some(SHARD_CAPACITY)
        &&& !queue_closed(self.queue)
    }

    /// Takes the first task of the shard.
    pub fn pop(&mut self) -> (task: Option<u64>)
        ensures
            old(self)@.tasks.len() == 0 ==> task is None && final(self)@ == old(self)@,
            old(self)@.tasks.len() > 0 ==> task == Some(old(self)@.tasks[0]) && final(self)@ == (
            ShardView { tasks: old(self)@.tasks.skip(1), ..old(self)@ }),
    {
        queue_pop(&mut self.queue)
    }
}

/// The state of an executor.
pub struct State {
    /// The global queue.
    queue: ConcurrentQueue<u64>,
    /// Shards of the global queue created by runners.
    shards: Vec<Shard>,
    /// Set to `true` when a sleeping ticker is notified or no tickers are sleeping.
    notified: bool,
    /// A list of sleeping tickers.
    sleepers: Sleepers,
    /// Number generator for shards.
    next_shard: u64,
}

impl View for State {
    type V = StateView;

    closed spec fn view(&self) -> StateView {
        StateView {
            queue: queue_items(self.queue),
            shards: self.shards@.map_values(|shard: Shard| shard@),
            notified: self.notified,
            sleepers: self.sleepers@,
            next_shard: self.next_shard as nat,
        }
    }
}

impl State {
    /// The queues take tasks: the global one any number, each shard as many as it holds.
    pub closed spec fn open_for_tasks(&self) -> bool {
        &&& queue_limit(self.queue) is None
        &&& !queue_closed(self.queue)
        &&& forall|i: int|
            0 <= i < self.shards@.len() ==> (#[trigger] self.shards@[i]).open_for_tasks()
    }

    /// The invariant of the state.
    pub open spec fn wf(&self) -> bool {
        self@.wf() && self.open_for_tasks()
    }

    /// Creates state for a new executor.
    pub fn new() -> (state: State)
        ensures
            state.wf(),
            state@ == StateView::initial(),
    {
        let state = State {
            queue: queue_unbounded(),
            shards: Vec::new(),
            notified: true,
            sleepers: Sleepers::new(),
            next_shard: 0,
        };
        assert(state@ =~= StateView::initial());
        state
    }

    /// Notifies a sleeping ticker.
    ///
    /// Returns the waker of the ticker, which the caller has to wake.
    pub fn notify(&mut self) -> (waker: Option<Waker>)
        requires
            old(self).wf(),
        ensures
            final(self).wf(),
            final(self)@ == old(self)@.after_notify(),
            waker == old(self)@.notify_waker(),
    {
        proof {
            self@.lemma_notify();
        }
        if self.notified {
            return None;
        }
        self.notified = true;
        let waker = self.sleepers.notify();
        assert(self@ == old(self)@.after_notify());
        waker
    }

    /// Schedules a task: puts it into the global queue and notifies a sleeping ticker.
    ///
    /// Returns the waker of the ticker, which the caller has to wake.
    pub fn schedule(&mut self, task: u64) -> (waker: Option<Waker>)
        requires
            old(self).wf(),
        ensures
            final(self).wf(),
            final(self)@ == old(self)@.pushed(task).after_notify(),
            waker == old(self)@.pushed(task).notify_waker(),
    {
        let pushed = queue_push(&mut self.queue, task);
        assert(pushed is Ok);
        assert(self@ == old(self)@.pushed(task));
        self.notify()
    }

    /// Takes the first task of the global queue.
    pub(crate) fn pop(&mut self) -> (task: Option<u64>)
        requires
            old(self).wf(),
        ensures
            final(self).wf(),
            old(self)@.queue.len() == 0 ==> task is None && final(self)@ == old(self)@,
            old(self)@.queue.len() > 0 ==> task == Some(old(self)@.queue[0]) && final(self)@
                == old(self)@.popped(),
    {
        let task = queue_pop(&mut self.queue);
        assert(task is Some ==> self@ == old(self)@.popped());
        assert(task is None ==> self@ == old(self)@);
        task
    }

    /// Takes the first task of the shard at position `i`.
    pub(crate) fn pop_shard(&mut self, i: usize) -> (task: Option<u64>)
        requires
            old(self).wf(),
            i < old(self)@.shards.len(),
        ensures
            final(self).wf(),
            old(self)@.shards[i as int].tasks.len() == 0 ==> task is None && final(self)@
                == old(self)@,
            old(self)@.shards[i as int].tasks.len() > 0 ==> task == Some(
                old(self)@.shards[i as int].tasks[0],
            ) && final(self)@ == old(self)@.shard_popped(i as int),
    {
        proof {
            if self@.shards[i as int].tasks.len() > 0 {
                self@.lemma_with_shard_wf(i as int, self@.shards[i as int].tasks.skip(1));
            }
        }
        let task = queue_pop(&mut self.shards[i].queue);
        assert(task is Some ==> self@ == old(self)@.shard_popped(i as int));
        assert(task is None ==> self@ == old(self)@);
        task
    }

    /// Lets the shard at position `to` steal from the global queue.
    pub(crate) fn steal_global(&mut self, to: usize)
        requires
            old(self).wf(),
            to < old(self)@.shards.len(),
        ensures
            final(self).wf(),
            final(self)@ == old(self)@.stolen_global(to as int),
    {
        proof {
            self@.lemma_stolen_wf(to as int, to as int);
        }
        steal(&mut self.queue, &mut self.shards[to].queue);
        assert(self@ == old(self)@.stolen_global(to as int));
    }

    /// Lets the shard at position `to` steal from the one at position `from`.
    pub(crate) fn steal_shard(&mut self, from: usize, to: usize)
        requires
            old(self).wf(),
            from < old(self)@.shards.len(),
            to < old(self)@.shards.len(),
            from != to,
        ensures
            final(self).wf(),
            final(self)@ == old(self)@.stolen_shard(from as int, to as int),
    {
        proof {
            self@.lemma_stolen_wf(from as int, to as int);
        }
        if from < to {
            let (left, right) = self.shards.as_mut_slice().split_at_mut(to);
            steal(&mut left[from].queue, &mut right[0].queue);
        } else {
            let (left, right) = self.shards.as_mut_slice().split_at_mut(from);
            steal(&mut right[0].queue, &mut left[to].queue);
        }
        assert(self@ == old(self)@.stolen_shard(from as int, to as int));
    }

    /// Finds the position of shard `id`.
    pub(crate) fn find_shard(&self, id: u64) -> (i: usize)
        requires
            self.wf(),
            self@.has_shard(id),
        ensures
            i < self@.shards.len(),
            i == self@.shard_index(id),
            self@.shard_at(id, i as int),
    {
        let mut i: usize = 0;
        while self.shards[i].id != id
            invariant
                i < self.shards@.len(),
                self.wf(),
                self@.has_shard(id),
                forall|j: int| 0 <= j < i ==> !self@.shard_at(id, j),
            decreases self.shards@.len() - i,
        {
            assert(!self@.shard_at(id, i as int));
            assert(self@.shard_at(id, self@.shard_index(id)));
            assert(i < self@.shard_index(id) < self.shards.len());
            i += 1;
        }
        proof {
            self@.lemma_shard_index(id, i as int);
        }
        i
    }

    /// Counts the shards.
    pub(crate) fn shard_count(&self) -> (n: usize)
        ensures
            n == self@.shards.len(),
    {
        self.shards.len()
    }

    /// There is a number left for another shard.
    pub fn can_add_shard(&self) -> (ok: bool)
        ensures
            ok == (self@.next_shard < u64::MAX),
    {
        self.next_shard < u64::MAX
    }

    /// Adds an empty shard and returns its number.
    pub(crate) fn add_shard(&mut self) -> (id: u64)
        requires
            old(self).wf(),
            old(self)@.next_shard < u64::MAX,
        ensures
            final(self).wf(),
            id == old(self)@.next_shard,
            final(self)@ == old(self)@.shard_added(),
    {
        proof {
            self@.lemma_shard_added_wf();
        }
        let id: u64 = self.next_shard;
        self.next_shard += 1;
        self.shards.push(Shard { id, queue: queue_bounded(SHARD_CAPACITY) });
        assert(self@ == old(self)@.shard_added());
        id
    }

    /// Removes the shard at position `i` and hands it out.
    pub(crate) fn remove_shard(&mut self, i: usize) -> (shard: Shard)
        requires
            old(self).wf(),
            i < old(self)@.shards.len(),
        ensures
            final(self).wf(),
            shard@ == old(self)@.shards[i as int],
            final(self)@ == old(self)@.shard_removed(i as int),
    {
        proof {
            self@.lemma_shard_removed_wf(i as int);
        }
        let shard = self.shards.remove(i);
        assert(self@ == old(self)@.shard_removed(i as int));
        shard
    }

    /// There is room and an ID left for another sleeping ticker.
    pub fn can_sleep(&self) -> (ok: bool)
        ensures
            ok == (self@.sleepers.id_gen < u64::MAX && self@.sleepers.count < usize::MAX),
    {
        self.sleepers.can_insert()
    }

    /// Puts a new ticker on the list of sleepers and brings the flag up to date.
    pub(crate) fn insert_sleeper(&mut self, waker: &Waker) -> (id: u64)
        requires
            old(self).wf(),
            old(self)@.sleepers.id_gen < u64::MAX,
            old(self)@.sleepers.count < usize::MAX,
        ensures
            final(self).wf(),
            id == old(self)@.sleepers.id_gen,
            final(self)@ == old(self)@.with_sleepers(old(self)@.sleepers.inserted(*waker)),
    {
        let id: u64 = self.sleepers.insert(waker);
        self.notified = self.sleepers.is_notified();
        assert(self@ == old(self)@.with_sleepers(old(self)@.sleepers.inserted(*waker)));
        id
    }

    /// Puts the waker of a sleeping ticker on the list and brings the flag up to date.
    ///
    /// Returns `true` if the ticker was notified.
    pub(crate) fn update_sleeper(&mut self, id: u64, waker: &Waker) -> (notified: bool)
        requires
            old(self).wf(),
            old(self)@.sleepers.ids.contains(id),
        ensures
            final(self).wf(),
            notified == !old(self)@.sleepers.waits(id),
            final(self)@ == old(self)@.with_sleepers(old(self)@.sleepers.updated(id, *waker)),
    {
        let notified = self.sleepers.update(id, waker);
        self.notified = self.sleepers.is_notified();
        assert(self@ == old(self)@.with_sleepers(old(self)@.sleepers.updated(id, *waker)));
        notified
    }

    /// Takes a sleeping ticker off the list of sleepers and brings the flag up to date.
    ///
    /// Returns `true` if the ticker was notified.
    pub(crate) fn remove_sleeper(&mut self, id: u64) -> (notified: bool)
        requires
            old(self).wf(),
            old(self)@.sleepers.ids.contains(id),
        ensures
            final(self).wf(),
            notified == !old(self)@.sleepers.waits(id),
            final(self)@ == old(self)@.with_sleepers(old(self)@.sleepers.removed(id)),
    {
        let notified = self.sleepers.remove(id);
        self.notified = self.sleepers.is_notified();
        assert(self@ == old(self)@.with_sleepers(old(self)@.sleepers.removed(id)));
        notified
    }
}

} // verus!
