//! The list of sleeping tickers.

use std::task::Waker;
use vstd::prelude::*;

verus! {

/// What a [`Sleepers`] list holds.
#[verifier::ext_equal]
pub struct SleepersView {
    /// Number of sleeping tickers, notified or not.
    pub count: nat,
    /// IDs and wakers of the sleeping tickers that are not notified, oldest first.
    pub wakers: Seq<(u64, Waker)>,
    /// The ID that the next sleeping ticker gets.
    pub id_gen: nat,
    /// The IDs of all sleeping tickers, notified or not.
    pub ids: Set<u64>,
}

impl SleepersView {
    /// The list without any ticker.
    pub open spec fn empty() -> Self {
        SleepersView { count: 0, wakers: Seq::empty(), id_gen: 0, ids: Set::empty() }
    }

    /// The waker of ticker `id` stands at position `i`.
    pub open spec fn waits_at(self, id: u64, i: int) -> bool {
        0 <= i < self.wakers.len() && self.wakers[i].0 == id
    }

    /// The waker of ticker `id` is in the list: if that ticker sleeps, it is not notified.
    pub open spec fn waits(self, id: u64) -> bool {
        exists|i: int| self.waits_at(id, i)
    }

    /// Where the waker of ticker `id` stands.
    pub open spec fn position(self, id: u64) -> int {
        choose|i: int| self.waits_at(id, i)
    }

    /// The invariant of the list: it counts the sleeping tickers, holds at most one waker for each
    /// of them and none for anyone else, and has handed out only IDs below `id_gen`.
    pub open spec fn wf(self) -> bool {
        &&& self.ids.finite()
        &&& self.ids.len() == self.count
        &&& forall|i: int, j: int|
            0 <= i < j < self.wakers.len() ==> #[trigger] self.wakers[i].0
                != #[trigger] self.wakers[j].0
        &&& forall|i: int|
            0 <= i < self.wakers.len() ==> self.ids.contains(#[trigger] self.wakers[i].0)
        &&& forall|id: u64| #[trigger] self.ids.contains(id) ==> id < self.id_gen
    }

    /// A sleeping ticker is notified, or no ticker sleeps.
    pub open spec fn is_notified(self) -> bool {
        self.count == 0 || self.count > self.wakers.len()
    }

    /// The list after a new ticker with waker `waker` has gone to sleep.
    pub open spec fn inserted(self, waker: Waker) -> Self {
        SleepersView {
            count: self.count + 1,
            wakers: self.wakers.push((self.id_gen as u64, waker)),
            id_gen: self.id_gen + 1,
            ids: self.ids.insert(self.id_gen as u64),
        }
    }

    /// The list after ticker `id` has been put in with waker `waker`, in the place of its old
    /// waker or, if it has none, at the end.
    pub open spec fn updated(self, id: u64, waker: Waker) -> Self {
        SleepersView {
            wakers: if self.waits(id) {
                self.wakers.update(self.position(id), (id, waker))
            } else {
                self.wakers.push((id, waker))
            },
            ..self
        }
    }

    /// The list after ticker `id` has stopped sleeping.
    pub open spec fn removed(self, id: u64) -> Self {
        SleepersView {
            count: (self.count - 1) as nat,
            wakers: if self.waits(id) {
                self.wakers.remove(self.position(id))
            } else {
                self.wakers
            },
            ids: self.ids.remove(id),
            ..self
        }
    }

    /// A notification finds a ticker to wake: one sleeps, and none is notified yet.
    pub open spec fn can_notify(self) -> bool {
        self.wakers.len() > 0 && self.wakers.len() == self.count
    }

    /// The list after a notification: the ticker that went to sleep last gets it.
    pub open spec fn after_notify(self) -> Self {
        if self.can_notify() {
            SleepersView { wakers: self.wakers.drop_last(), ..self }
        } else {
            self
        }
    }

    /// The waker that a notification hands out.
    pub open spec fn notify_waker(self) -> Option<Waker> {
        if self.can_notify() {
            Some(self.wakers.last().1)
        } else {
            None
        }
    }

    /// No more tickers wait for a notification than sleep.
    pub proof fn lemma_waiting_sleep(self)
        requires
            self.wf(),
        ensures
            self.wakers.len() <= self.count,
    {
        let waiting = self.wakers.map_values(|entry: (u64, Waker)| entry.0);
        assert(waiting.no_duplicates());
        waiting.unique_seq_to_set();
        assert(waiting.to_set().subset_of(self.ids));
        vstd::set_lib::lemma_len_subset(waiting.to_set(), self.ids);
    }

    /// Going to sleep keeps the invariant.
    pub proof fn lemma_inserted_wf(self, waker: Waker)
        requires
            self.wf(),
            self.id_gen <= u64::MAX,
        ensures
            self.inserted(waker).wf(),
    {
        let post = self.inserted(waker);
        let id = self.id_gen as u64;
        assert(!self.ids.contains(id));
        assert forall|i: int, j: int| 0 <= i < j < post.wakers.len() implies #[trigger] post.wakers[i].0
            != #[trigger] post.wakers[j].0 by {
            assert(self.ids.contains(self.wakers[i].0));
        }
    }

    /// A new waker for a sleeping ticker keeps the invariant.
    pub proof fn lemma_updated_wf(self, id: u64, waker: Waker)
        requires
            self.wf(),
            self.ids.contains(id),
        ensures
            self.updated(id, waker).wf(),
    {
        if self.waits(id) {
            assert(self.waits_at(id, self.position(id)));
        } else {
            assert forall|i: int| 0 <= i < self.wakers.len() implies #[trigger] self.wakers[i].0
                != id by {
                assert(!self.waits_at(id, i));
            }
        }
    }

    /// A sleeping ticker that stops sleeping keeps the invariant.
    pub proof fn lemma_removed_wf(self, id: u64)
        requires
            self.wf(),
            self.ids.contains(id),
        ensures
            self.removed(id).wf(),
    {
        let post = self.removed(id);
        if self.waits(id) {
            let k = self.position(id);
            assert(self.waits_at(id, k));
            assert forall|i: int| 0 <= i < post.wakers.len() implies post.ids.contains(
                #[trigger] post.wakers[i].0,
            ) by {
                let from = if i < k { i } else { i + 1 };
                assert(post.wakers[i] == self.wakers[from]);
                assert(self.wakers[from].0 != self.wakers[k].0);
            }
            assert forall|i: int, j: int| 0 <= i < j < post.wakers.len() implies #[trigger] post.wakers[i].0
                != #[trigger] post.wakers[j].0 by {
                let from_i = if i < k { i } else { i + 1 };
                let from_j = if j < k { j } else { j + 1 };
                assert(self.wakers[from_i].0 != self.wakers[from_j].0);
            }
        } else {
            assert forall|i: int| 0 <= i < self.wakers.len() implies #[trigger] self.wakers[i].0
                != id by {
                assert(!self.waits_at(id, i));
            }
        }
    }
}

/// A list of sleeping tickers.
pub struct Sleepers {
    /// Number of sleeping tickers (both notified and unnotified).
    count: usize,
    /// IDs and wakers of sleeping unnotified tickers.
    ///
    /// A sleeping ticker is notified when its waker is missing from this list.
    wakers: Vec<(u64, Waker)>,
    /// ID generator for sleepers.
    id_gen: u64,
    /// IDs of all sleeping tickers.
    ids: Ghost<Set<u64>>,
}

impl View for Sleepers {
    type V = SleepersView;

    closed spec fn view(&self) -> SleepersView {
        SleepersView {
            count: self.count as nat,
            wakers: self.wakers@,
            id_gen: self.id_gen as nat,
            ids: self.ids@,
        }
    }
}

impl Sleepers {
    /// Creates an empty list.
    pub fn new() -> (sleepers: Sleepers)
        ensures
            sleepers@ == SleepersView::empty(),
            sleepers@.wf(),
    {
        Sleepers { count: 0, wakers: Vec::new(), id_gen: 0, ids: Ghost(Set::empty()) }
    }

    /// There is room and an ID left for another ticker.
    pub fn can_insert(&self) -> (ok: bool)
        ensures
            ok == (self@.id_gen < u64::MAX && self@.count < usize::MAX),
    {
        self.id_gen < u64::MAX && self.count < usize::MAX
    }

    /// Inserts a new sleeping ticker.
    ///
    /// Returns the ID of the ticker.
    pub fn insert(&mut self, waker: &Waker) -> (id: u64)
        requires
            old(self)@.wf(),
            old(self)@.id_gen < u64::MAX,
            old(self)@.count < usize::MAX,
        ensures
            final(self)@.wf(),
            id == old(self)@.id_gen,
            final(self)@ == old(self)@.inserted(*waker),
    {
        let id: u64 = self.id_gen;
        self.id_gen += 1;
        self.count += 1;
        self.wakers.push((id, waker.clone()));
        self.ids = Ghost(self.ids@.insert(id));
        proof {
            old(self)@.lemma_inserted_wf(*waker);
        }
        id
    }

    /// Re-inserts a sleeping ticker's waker if it was notified.
    ///
    /// Returns `true` if the ticker was notified.
    pub fn update(&mut self, id: u64, waker: &Waker) -> (notified: bool)
        requires
            old(self)@.wf(),
        ensures
            old(self)@.ids.contains(id) ==> final(self)@.wf(),
            notified == !old(self)@.waits(id),
            final(self)@ == old(self)@.updated(id, *waker),
    {
        proof {
            if self@.ids.contains(id) {
                self@.lemma_updated_wf(id, *waker);
            }
        }
        let mut i: usize = 0;
        while i < self.wakers.len()
            invariant
                i <= self.wakers.len(),
                *self == *old(self),
                old(self)@.wf(),
                forall|j: int| 0 <= j < i ==> #[trigger] self.wakers@[j].0 != id,
            decreases self.wakers.len() - i,
        {
            if self.wakers[i].0 == id {
                assert(old(self)@.waits_at(id, i as int));
                assert(old(self)@.position(id) == i);
                if !self.wakers[i].1.will_wake(waker) {
                    self.wakers[i].1 = waker.clone();
                }
                return false;
            }
            i += 1;
        }
        self.wakers.push((id, waker.clone()));
        true
    }

    /// Removes a previously inserted sleeping ticker.
    ///
    /// Returns `true` if the ticker was notified.
    pub fn remove(&mut self, id: u64) -> (notified: bool)
        requires
            old(self)@.wf(),
            old(self)@.count > 0,
        ensures
            old(self)@.ids.contains(id) ==> final(self)@.wf(),
            notified == !old(self)@.waits(id),
            final(self)@ == old(self)@.removed(id),
    {
        proof {
            if self@.ids.contains(id) {
                self@.lemma_removed_wf(id);
            }
        }
        self.count -= 1;
        self.ids = Ghost(self.ids@.remove(id));
        let mut i: usize = self.wakers.len();
        while i > 0
            invariant
                i <= self.wakers.len(),
                self.wakers@ == old(self)@.wakers,
                self.count == old(self)@.count - 1,
                self.id_gen == old(self)@.id_gen,
                self.ids@ == old(self)@.ids.remove(id),
                old(self)@.wf(),
                forall|j: int| i <= j < self.wakers.len() ==> #[trigger] self.wakers@[j].0 != id,
            decreases i,
        {
            i -= 1;
            if self.wakers[i].0 == id {
                assert(old(self)@.waits_at(id, i as int));
                assert(old(self)@.position(id) == i);
                self.wakers.remove(i);
                return false;
            }
        }
        true
    }

    /// Returns `true` if a sleeping ticker is notified or no tickers are sleeping.
    pub fn is_notified(&self) -> (notified: bool)
        ensures
            notified == self@.is_notified(),
    {
        self.count == 0 || self.count > self.wakers.len()
    }

    /// Returns notification waker for a sleeping ticker.
    ///
    /// If a ticker was notified already or there are no tickers, `None` will be returned.
    pub fn notify(&mut self) -> (waker: Option<Waker>)
        ensures
            old(self)@.wf() ==> final(self)@.wf(),
            waker == old(self)@.notify_waker(),
            final(self)@ == old(self)@.after_notify(),
    {
        if self.wakers.len() == self.count {
            match self.wakers.pop() {
                Some(item) => Some(item.1),
                None => None,
            }
        } else {
            None
        }
    }
}

} // verus!
