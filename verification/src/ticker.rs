//! Tickers: workers that run tasks of the global queue.

use crate::state::{State, StateView};
use std::task::Waker;
use vstd::prelude::*;

verus! {

/// A task that was found, and what has to be done about it.
pub struct Tick {
    /// The ticker to wake before the task is run, so that it picks up where this one left off.
    pub waker: Option<Waker>,
    /// The task to run.
    pub task: u64,
}

/// A ticker with the ID `sleeping`, if it sleeps, is known to the state as a sleeping one.
pub open spec fn is_registered(sleeping: Option<u64>, state: StateView) -> bool {
    sleeping matches Some(id) ==> state.sleepers.ids.contains(id)
}

/// There is room and an ID left to put a ticker to sleep.
pub open spec fn can_sleep(sleeping: Option<u64>, state: StateView) -> bool {
    sleeping is None ==> state.sleepers.id_gen < u64::MAX && state.sleepers.count < usize::MAX
}

/// The ticker is awake, or sleeping and notified.
pub open spec fn is_roused(sleeping: Option<u64>, state: StateView) -> bool {
    sleeping matches Some(id) ==> !state.sleepers.waits(id)
}

/// The ID of a ticker that has moved into sleeping state.
pub open spec fn asleep(sleeping: Option<u64>, state: StateView) -> Option<u64> {
    match sleeping {
        None => Some(state.sleepers.id_gen as u64),
        Some(id) => Some(id),
    }
}

/// The state after a ticker has moved into sleeping and unnotified state.
pub open spec fn after_sleep(sleeping: Option<u64>, state: StateView, waker: Waker) -> StateView {
    match sleeping {
        None => state.with_sleepers(state.sleepers.inserted(waker)),
        Some(id) => state.with_sleepers(state.sleepers.updated(id, waker)),
    }
}

/// The state after a ticker has moved into woken state.
pub open spec fn after_wake(sleeping: Option<u64>, state: StateView) -> StateView {
    match sleeping {
        None => state,
        Some(id) => state.with_sleepers(state.sleepers.removed(id)),
    }
}

/// A ticker that goes away has been notified, so that another one has to be in its place.
pub open spec fn passes_on(sleeping: Option<u64>, state: StateView) -> bool {
    sleeping matches Some(id) && !state.sleepers.waits(id)
}

/// The state after a ticker has gone away.
pub open spec fn after_drop(sleeping: Option<u64>, state: StateView) -> StateView {
    if passes_on(sleeping, state) {
        after_wake(sleeping, state).after_notify()
    } else {
        after_wake(sleeping, state)
    }
}

/// The waker that has to be woken after a ticker has gone away.
pub open spec fn drop_waker(sleeping: Option<u64>, state: StateView) -> Option<Waker> {
    if passes_on(sleeping, state) {
        after_wake(sleeping, state).notify_waker()
    } else {
        None
    }
}

/// Executes tasks in a work-stealing executor.
///
/// A ticker represents a "worker" in a work-stealing executor.
pub struct Ticker {
    /// Set to the ID of the ticker when in sleeping state.
    ///
    /// States a ticker can be in:
    /// 1) Woken.
    /// 2a) Sleeping and unnotified.
    /// 2b) Sleeping and notified.
    sleeping: Option<u64>,
}

impl View for Ticker {
    type V = Option<u64>;

    closed spec fn view(&self) -> Option<u64> {
        self.sleeping
    }
}

impl Ticker {
    /// Creates a ticker, which is awake.
    pub fn new() -> (ticker: Ticker)
        ensures
            ticker@ is None,
    {
        Ticker { sleeping: None }
    }

    /// Returns `true` if the ticker is in sleeping state.
    pub fn is_sleeping(&self) -> (sleeping: bool)
        ensures
            sleeping == self@ is Some,
    {
        self.sleeping.is_some()
    }

    /// Moves the ticker into sleeping and unnotified state.
    ///
    /// Returns `false` if the ticker was already sleeping and unnotified.
    pub fn sleep(&mut self, state: &mut State, waker: &Waker) -> (moved: bool)
        requires
            old(state).wf(),
            is_registered(old(self)@, old(state)@),
            can_sleep(old(self)@, old(state)@),
        ensures
            final(state).wf(),
            is_registered(final(self)@, final(state)@),
            moved == is_roused(old(self)@, old(state)@),
            final(self)@ == asleep(old(self)@, old(state)@),
            final(state)@ == after_sleep(old(self)@, old(state)@, *waker),
    {
        match self.sleeping {
            // Move to sleeping state.
            None => {
                self.sleeping = Some(state.insert_sleeper(waker));
            },
            // Already sleeping, check if notified.
            Some(id) => {
                if !state.update_sleeper(id, waker) {
                    return false;
                }
            },
        }
        true
    }

    /// Moves the ticker into woken state.
    pub fn wake(&mut self, state: &mut State)
        requires
            old(state).wf(),
            is_registered(old(self)@, old(state)@),
        ensures
            final(state).wf(),
            final(self)@ is None,
            final(state)@ == after_wake(old(self)@, old(state)@),
    {
        if let Some(id) = self.sleeping {
            self.sleeping = None;
            state.remove_sleeper(id);
        }
    }

    /// Attempts to execute a single task.
    ///
    /// This method takes a scheduled task from the global queue for the caller to run. If there is
    /// none, the ticker goes to sleep and `None` is returned: `waker` gets woken when there may be
    /// one.
    pub fn poll_tick(&mut self, state: &mut State, waker: &Waker) -> (tick: Option<Tick>)
        requires
            old(state).wf(),
            is_registered(old(self)@, old(state)@),
            old(state)@.queue.len() == 0 ==> can_sleep(old(self)@, old(state)@),
        ensures
            final(state).wf(),
            is_registered(final(self)@, final(state)@),
            old(state)@.queue.len() == 0 ==> {
                &&& tick is None
                &&& final(self)@ == asleep(old(self)@, old(state)@)
                &&& final(state)@ == after_sleep(old(self)@, old(state)@, *waker)
            },
            old(state)@.queue.len() > 0 ==> {
                let woken = after_wake(old(self)@, old(state)@.popped());
                &&& tick == Some(Tick { waker: woken.notify_waker(), task: old(state)@.queue[0] })
                &&& final(self)@ is None
                &&& final(state)@ == woken.after_notify()
            },
    {
        loop
            invariant
                state.wf(),
                is_registered(self@, state@),
                state@.queue.len() == 0 ==> can_sleep(self@, state@),
                old(state).wf(),
                old(state)@.queue.len() == 0 ==> can_sleep(old(self)@, old(state)@),
                is_registered(old(self)@, old(state)@),
                (self@ == old(self)@ && state@ == old(state)@) || {
                    &&& old(state)@.queue.len() == 0
                    &&& self@ == asleep(old(self)@, old(state)@)
                    &&& state@ == after_sleep(old(self)@, old(state)@, *waker)
                    &&& !is_roused(self@, state@)
                },
            decreases (if is_roused(self@, state@) { 1int } else { 0int }),
        {
            match state.pop() {
                None => {
                    let ghost (slept, pre) = (self@, state@);
                    // Move to sleeping and unnotified state.
                    if !self.sleep(state, waker) {
                        // If already sleeping and unnotified, return.
                        proof {
                            lemma_sleep_again(old(self)@, old(state)@, *waker);
                        }
                        return None;
                    }
                    proof {
                        lemma_asleep(slept, pre, *waker);
                    }
                },
                Some(task) => {
                    // Wake up.
                    self.wake(state);

                    // Notify another ticker now to pick up where this ticker left off, just in
                    // case running the task takes a long time.
                    let waker = state.notify();

                    return Some(Tick { waker, task });
                },
            }
        }
    }

    /// Takes the ticker out of the executor.
    ///
    /// Returns the waker of another ticker, which the caller has to wake.
    pub fn drop(self, state: &mut State) -> (waker: Option<Waker>)
        requires
            old(state).wf(),
            is_registered(self@, old(state)@),
        ensures
            final(state).wf(),
            final(state)@ == after_drop(self@, old(state)@),
            waker == drop_waker(self@, old(state)@),
    {
        // If this ticker is in sleeping state, it must be removed from the sleepers list.
        if let Some(id) = self.sleeping {
            // If this ticker was notified, then notify another ticker.
            if state.remove_sleeper(id) {
                return state.notify();
            }
        }
        None
    }
}

/// A ticker that has gone to sleep is sleeping and unnotified.
pub proof fn lemma_asleep(sleeping: Option<u64>, state: StateView, waker: Waker)
    requires
        state.wf(),
        is_registered(sleeping, state),
        can_sleep(sleeping, state),
    ensures
        after_sleep(sleeping, state, waker).wf(),
        is_registered(asleep(sleeping, state), after_sleep(sleeping, state, waker)),
        !is_roused(asleep(sleeping, state), after_sleep(sleeping, state, waker)),
{
    let pre = state.sleepers;
    let post = after_sleep(sleeping, state, waker).sleepers;
    match sleeping {
        None => {
            pre.lemma_inserted_wf(waker);
            assert(post.waits_at(pre.id_gen as u64, pre.wakers.len() as int));
        },
        Some(id) => {
            pre.lemma_updated_wf(id, waker);
            if pre.waits(id) {
                assert(pre.waits_at(id, pre.position(id)));
                assert(post.waits_at(id, pre.position(id)));
            } else {
                assert(post.waits_at(id, pre.wakers.len() as int));
            }
        },
    }
}

/// A ticker that goes to sleep twice with the same waker sleeps as after the first time.
pub proof fn lemma_sleep_again(sleeping: Option<u64>, state: StateView, waker: Waker)
    requires
        state.wf(),
        is_registered(sleeping, state),
        can_sleep(sleeping, state),
    ensures
        after_sleep(
            asleep(sleeping, state),
            after_sleep(sleeping, state, waker),
            waker,
        ) == after_sleep(sleeping, state, waker),
{
    lemma_asleep(sleeping, state, waker);
    let id = asleep(sleeping, state)->0;
    let pre = state.sleepers;
    let post = after_sleep(sleeping, state, waker).sleepers;
    let k = post.position(id);
    assert(post.waits_at(id, k));
    assert(post.wakers[k] == (id, waker)) by {
        let put = match sleeping {
            Some(_) if pre.waits(id) => pre.position(id),
            _ => pre.wakers.len() as int,
        };
        if sleeping is Some && pre.waits(id) {
            assert(pre.waits_at(id, pre.position(id)));
        }
        assert(post.wakers[put] == (id, waker));
        if put < k {
            assert(post.wakers[put].0 != post.wakers[k].0);
        } else if k < put {
            assert(post.wakers[k].0 != post.wakers[put].0);
        }
    }
    assert(post.updated(id, waker).wakers =~= post.wakers);
    assert(post.updated(id, waker) =~= post);
}

} // verus!
