//! Who is woken: what the operations do to the sleeping tickers, told ticker by ticker.

use crate::sleepers::SleepersView;
use crate::state::StateView;
use crate::ticker::{
    after_drop, after_sleep, after_wake, asleep, can_sleep, drop_waker, is_registered, is_roused,
    passes_on,
};
use std::task::Waker;
use vstd::prelude::*;

verus! {

/// Ticker `id` waits for a notification, and is to be woken by `waker`.
pub open spec fn holds(sleepers: SleepersView, id: u64, waker: Waker) -> bool {
    sleepers.wakers.contains((id, waker))
}

/// Ticker `id` waits for a notification.
pub open spec fn is_waiting(sleepers: SleepersView, id: u64) -> bool {
    exists|waker: Waker| #[trigger] holds(sleepers, id, waker)
}

/// A ticker other than `own` sleeps, and all those that sleep wait for a notification.
pub open spec fn all_wait(sleepers: SleepersView, own: Option<u64>) -> bool {
    &&& exists|id: u64| #[trigger] sleepers.ids.contains(id) && own != Some(id)
    &&& forall|id: u64| #[trigger]
        sleepers.ids.contains(id) && own != Some(id) ==> is_waiting(sleepers, id)
}

/// The tickers that wait, but for `own`, stand in the order in which they stood.
pub open spec fn keeps_order(
    before: SleepersView,
    after: SleepersView,
    own: Option<u64>,
) -> bool {
    forall|i: int, j: int|
        0 <= i < j < after.wakers.len() && own != Some(#[trigger] after.wakers[i].0) && own != Some(
            #[trigger] after.wakers[j].0,
        ) ==> exists|p: int, q: int|
            0 <= p < q < before.wakers.len() && #[trigger] before.wakers[p].0 == after.wakers[i].0
                && #[trigger] before.wakers[q].0 == after.wakers[j].0
}

/// All tickers but `own` sleep if they slept.
pub open spec fn same_sleepers(
    before: SleepersView,
    after: SleepersView,
    own: Option<u64>,
) -> bool {
    forall|id: u64|
        own != Some(id) ==> (#[trigger] after.ids.contains(id) <==> before.ids.contains(id))
}

/// All tickers but `own` sleep if they slept, and wait if they waited, with the same wakers and in
/// the same order.
pub open spec fn others_as_before(
    before: SleepersView,
    after: SleepersView,
    own: Option<u64>,
) -> bool {
    &&& same_sleepers(before, after, own)
    &&& forall|id: u64, waker: Waker|
        own != Some(id) ==> (#[trigger] holds(after, id, waker) <==> holds(before, id, waker))
    &&& keeps_order(before, after, own)
}

/// All tickers that started to wait after ticker `id`, if any, are ticker `own`.
pub open spec fn is_latest(sleepers: SleepersView, own: Option<u64>, id: u64) -> bool {
    forall|i: int, j: int|
        0 <= i < j < sleepers.wakers.len() && #[trigger] sleepers.wakers[i].0 == id ==> own == Some(
            #[trigger] sleepers.wakers[j].0,
        )
}

/// Of all tickers but `own`, ticker `id` alone is notified: it was the latest to start waiting, it
/// was waiting to be woken by `waker`, and it waits no more but still sleeps.
pub open spec fn rouses_one(
    before: SleepersView,
    after: SleepersView,
    own: Option<u64>,
    waker: Waker,
    id: u64,
) -> bool {
    &&& own != Some(id)
    &&& before.ids.contains(id)
    &&& after.ids.contains(id)
    &&& holds(before, id, waker)
    &&& !is_waiting(after, id)
    &&& is_latest(before, own, id)
    &&& same_sleepers(before, after, own)
    &&& forall|other: u64, w: Waker|
        own != Some(other) && other != id ==> (#[trigger] holds(after, other, w) <==> holds(
            before,
            other,
            w,
        ))
    &&& keeps_order(before, after, own)
}

/// `waker`, if any, is that of the ticker that is notified: no ticker but `own` stops waiting
/// without its waker being handed out, and no other ticker's waker is.
pub open spec fn rouses(
    before: SleepersView,
    after: SleepersView,
    own: Option<u64>,
    waker: Option<Waker>,
) -> bool {
    match waker {
        Some(waker) => exists|id: u64| #[trigger] rouses_one(before, after, own, waker, id),
        None => others_as_before(before, after, own),
    }
}

/// Ticker `id` waits to be woken by `waker`, and by nothing else. It keeps its place if it was waiting
/// already, and is the latest otherwise.
pub open spec fn waits_anew(
    before: SleepersView,
    after: SleepersView,
    id: u64,
    waker: Waker,
) -> bool {
    &&& forall|w: Waker| #[trigger] holds(after, id, w) <==> w == waker
    &&& others_as_before(before, after, Some(id))
    &&& if is_waiting(before, id) {
        &&& after.wakers.len() == before.wakers.len()
        &&& forall|i: int|
            0 <= i < after.wakers.len() ==> #[trigger] after.wakers[i].0 == before.wakers[i].0
    } else {
        &&& after.wakers.len() == before.wakers.len() + 1
        &&& after.wakers.last().0 == id
    }
}

/// Ticker `id` has gone to sleep and waits to be woken by `waker`.
pub open spec fn falls_asleep(
    before: SleepersView,
    after: SleepersView,
    id: u64,
    waker: Waker,
) -> bool {
    after.ids.contains(id) && waits_anew(before, after, id, waker)
}

/// Ticker `id` does not sleep.
pub open spec fn is_awake(sleepers: SleepersView, id: u64) -> bool {
    !sleepers.ids.contains(id) && !is_waiting(sleepers, id)
}

/// The queues are as they were.
pub open spec fn same_queues(before: StateView, after: StateView) -> bool {
    &&& after.queue == before.queue
    &&& after.shards == before.shards
    &&& after.next_shard == before.next_shard
}

/// The flag tells whether a sleeping ticker is notified or no ticker sleeps.
pub open spec fn flag_is_right(state: StateView) -> bool {
    state.notified <==> !all_wait(state.sleepers, None)
}

/// A ticker waits exactly if there is a waker for it in the list.
pub proof fn law_waits(sleepers: SleepersView, id: u64)
    ensures
        sleepers.waits(id) <==> is_waiting(sleepers, id),
        sleepers.waits(id) <==> exists|i: int|
            0 <= i < sleepers.wakers.len() && #[trigger] sleepers.wakers[i].0 == id,
{
    if sleepers.waits(id) {
        let i = sleepers.position(id);
        assert(sleepers.waits_at(id, i));
        assert(sleepers.wakers[i] == (id, sleepers.wakers[i].1));
        assert(holds(sleepers, id, sleepers.wakers[i].1));
    }
    if is_waiting(sleepers, id) {
        let waker = choose|waker: Waker| #[trigger] holds(sleepers, id, waker);
        let i = choose|i: int|
            0 <= i < sleepers.wakers.len() && #[trigger] sleepers.wakers[i] == (id, waker);
        assert(sleepers.waits_at(id, i));
    }
    if exists|i: int| 0 <= i < sleepers.wakers.len() && #[trigger] sleepers.wakers[i].0 == id {
        let i = choose|i: int| 0 <= i < sleepers.wakers.len() && #[trigger] sleepers.wakers[i].0 == id;
        assert(sleepers.waits_at(id, i));
    }
}

/// Equal entries stand in the same place.
proof fn lemma_unique(sleepers: SleepersView, i: int, j: int)
    requires
        sleepers.wf(),
        0 <= i < sleepers.wakers.len(),
        0 <= j < sleepers.wakers.len(),
        sleepers.wakers[i].0 == sleepers.wakers[j].0,
    ensures
        i == j,
{
    if i < j {
        assert(sleepers.wakers[i].0 != sleepers.wakers[j].0);
    } else if j < i {
        assert(sleepers.wakers[j].0 != sleepers.wakers[i].0);
    }
}

/// The flag is set exactly if a sleeping ticker is notified or no ticker sleeps.
pub proof fn law_flag(state: StateView)
    requires
        state.wf(),
    ensures
        flag_is_right(state),
        state.sleepers.is_notified() <==> !all_wait(state.sleepers, None),
{
    crate::laws::law_is_notified(state.sleepers);
    let s = state.sleepers;
    assert forall|id: u64| s.waits(id) <==> #[trigger] is_waiting(s, id) by {
        law_waits(s, id);
    }
    if crate::laws::some_notified(s) {
        let id = choose|id: u64| #[trigger] s.ids.contains(id) && !s.waits(id);
        assert(!is_waiting(s, id));
    } else if !s.ids.is_empty() {
        let id = s.ids.choose();
        assert(s.ids.contains(id));
        assert forall|id: u64| #[trigger] s.ids.contains(id) implies is_waiting(s, id) by {
            assert(s.waits(id) <==> is_waiting(s, id));
        }
    }
}

/// A ticker that is put on the list gets an ID of its own, and waits to be woken by `waker`.
pub proof fn law_insert(sleepers: SleepersView, waker: Waker)
    requires
        sleepers.wf(),
        sleepers.id_gen <= u64::MAX,
    ensures
        ({
            let id = sleepers.id_gen as u64;
            let after = sleepers.inserted(waker);
            &&& is_awake(sleepers, id)
            &&& falls_asleep(sleepers, after, id, waker)
            &&& after.count == sleepers.count + 1
            &&& id < after.id_gen
        }),
{
    let id = sleepers.id_gen as u64;
    let after = sleepers.inserted(waker);
    crate::laws::law_fresh_id(sleepers);
    law_waits(sleepers, id);
    let n = sleepers.wakers.len() as int;
    assert(after.wakers[n] == (id, waker));
    assert forall|i: int| 0 <= i < n implies #[trigger] after.wakers[i] == sleepers.wakers[i] by {}
    assert forall|w: Waker| #[trigger] holds(after, id, w) <==> w == waker by {
        if holds(after, id, w) {
            let i = choose|i: int| 0 <= i < after.wakers.len() && after.wakers[i] == (id, w);
            if i < n {
                assert(sleepers.wakers[i] == (id, w));
                assert(holds(sleepers, id, w));
            }
        }
    }
    assert forall|other: u64, w: Waker| other != id implies (#[trigger] holds(after, other, w)
        <==> holds(sleepers, other, w)) by {
        if holds(after, other, w) {
            let i = choose|i: int| 0 <= i < after.wakers.len() && after.wakers[i] == (other, w);
            assert(sleepers.wakers[i] == (other, w));
        }
        if holds(sleepers, other, w) {
            let i = choose|i: int| 0 <= i < n && sleepers.wakers[i] == (other, w);
            assert(after.wakers[i] == (other, w));
        }
    }
    assert forall|i: int, j: int|
        0 <= i < j < after.wakers.len() && Some(id) != Some(#[trigger] after.wakers[i].0) && Some(id)
            != Some(#[trigger] after.wakers[j].0) implies exists|p: int, q: int|
        0 <= p < q < sleepers.wakers.len() && #[trigger] sleepers.wakers[p].0 == after.wakers[i].0
            && #[trigger] sleepers.wakers[q].0 == after.wakers[j].0 by {
        assert(sleepers.wakers[i].0 == after.wakers[i].0);
        assert(sleepers.wakers[j].0 == after.wakers[j].0);
    }
}

/// A ticker that gets a new waker waits to be woken by that one, wherever it stands.
pub proof fn law_update(sleepers: SleepersView, id: u64, waker: Waker)
    requires
        sleepers.wf(),
    ensures
        ({
            let after = sleepers.updated(id, waker);
            &&& waits_anew(sleepers, after, id, waker)
            &&& after.ids == sleepers.ids
            &&& after.count == sleepers.count
            &&& after.id_gen == sleepers.id_gen
        }),
{
    let after = sleepers.updated(id, waker);
    law_waits(sleepers, id);
    let n = sleepers.wakers.len() as int;
    let k = if sleepers.waits(id) {
        sleepers.position(id)
    } else {
        n
    };
    if sleepers.waits(id) {
        assert(sleepers.waits_at(id, k));
    }
    assert(after.wakers[k] == (id, waker));
    assert forall|i: int| 0 <= i < n && i != k implies #[trigger] after.wakers[i]
        == sleepers.wakers[i] by {}
    assert forall|w: Waker| #[trigger] holds(after, id, w) <==> w == waker by {
        if holds(after, id, w) {
            let i = choose|i: int| 0 <= i < after.wakers.len() && after.wakers[i] == (id, w);
            if i != k {
                assert(sleepers.wakers[i].0 == id);
                lemma_unique(sleepers, i, k);
            }
        }
    }
    assert forall|other: u64, w: Waker| other != id implies (#[trigger] holds(after, other, w)
        <==> holds(sleepers, other, w)) by {
        if holds(after, other, w) {
            let i = choose|i: int| 0 <= i < after.wakers.len() && after.wakers[i] == (other, w);
            assert(sleepers.wakers[i] == (other, w));
        }
        if holds(sleepers, other, w) {
            let i = choose|i: int| 0 <= i < n && sleepers.wakers[i] == (other, w);
            assert(after.wakers[i] == (other, w));
        }
    }
    assert forall|i: int, j: int|
        0 <= i < j < after.wakers.len() && Some(id) != Some(#[trigger] after.wakers[i].0) && Some(id)
            != Some(#[trigger] after.wakers[j].0) implies exists|p: int, q: int|
        0 <= p < q < sleepers.wakers.len() && #[trigger] sleepers.wakers[p].0 == after.wakers[i].0
            && #[trigger] sleepers.wakers[q].0 == after.wakers[j].0 by {
        assert(sleepers.wakers[i].0 == after.wakers[i].0);
        assert(sleepers.wakers[j].0 == after.wakers[j].0);
    }
}

/// A ticker that is taken off the list is gone, and nothing else changes.
pub proof fn law_remove(sleepers: SleepersView, id: u64)
    requires
        sleepers.wf(),
        sleepers.count > 0,
    ensures
        ({
            let after = sleepers.removed(id);
            &&& is_awake(after, id)
            &&& others_as_before(sleepers, after, Some(id))
            &&& after.count == sleepers.count - 1
            &&& after.id_gen == sleepers.id_gen
        }),
{
    let after = sleepers.removed(id);
    law_waits(sleepers, id);
    law_waits(after, id);
    let n = sleepers.wakers.len() as int;
    let k = if sleepers.waits(id) {
        sleepers.position(id)
    } else {
        n
    };
    if sleepers.waits(id) {
        assert(sleepers.waits_at(id, k));
    }
    assert forall|i: int| 0 <= i < after.wakers.len() implies #[trigger] after.wakers[i]
        == sleepers.wakers[if i < k { i } else { i + 1 }] by {}
    assert forall|i: int| 0 <= i < after.wakers.len() implies #[trigger] after.wakers[i].0 != id by {
        let from = if i < k { i } else { i + 1 };
        assert(after.wakers[i] == sleepers.wakers[from]);
        if sleepers.wakers[from].0 == id {
            lemma_unique(sleepers, from, k);
        }
    }
    assert forall|other: u64, w: Waker| other != id implies (#[trigger] holds(after, other, w)
        <==> holds(sleepers, other, w)) by {
        if holds(after, other, w) {
            let i = choose|i: int| 0 <= i < after.wakers.len() && after.wakers[i] == (other, w);
            assert(sleepers.wakers[if i < k { i } else { i + 1 }] == (other, w));
        }
        if holds(sleepers, other, w) {
            let i = choose|i: int| 0 <= i < n && sleepers.wakers[i] == (other, w);
            assert(after.wakers[if i < k { i } else { i - 1 }] == (other, w));
        }
    }
    assert forall|i: int, j: int|
        0 <= i < j < after.wakers.len() && Some(id) != Some(#[trigger] after.wakers[i].0) && Some(id)
            != Some(#[trigger] after.wakers[j].0) implies exists|p: int, q: int|
        0 <= p < q < sleepers.wakers.len() && #[trigger] sleepers.wakers[p].0 == after.wakers[i].0
            && #[trigger] sleepers.wakers[q].0 == after.wakers[j].0 by {
        let p = if i < k { i } else { i + 1 };
        let q = if j < k { j } else { j + 1 };
        assert(sleepers.wakers[p].0 == after.wakers[i].0);
        assert(sleepers.wakers[q].0 == after.wakers[j].0);
    }
}

/// A notification changes the waiting of one ticker at most: the latest to start waiting waits no
/// more, and its waker is handed out. That happens exactly if a ticker sleeps and all wait.
pub proof fn law_notify(sleepers: SleepersView)
    requires
        sleepers.wf(),
    ensures
        rouses(sleepers, sleepers.after_notify(), None, sleepers.notify_waker()),
        sleepers.notify_waker() is Some <==> all_wait(sleepers, None),
        sleepers.after_notify().count == sleepers.count,
        sleepers.after_notify().id_gen == sleepers.id_gen,
        sleepers.after_notify().wf(),
{
    let after = sleepers.after_notify();
    sleepers.lemma_waiting_sleep();
    let state = StateView {
        sleepers,
        notified: sleepers.is_notified(),
        shards: Seq::empty(),
        ..StateView::initial()
    };
    law_flag(state);
    let n = sleepers.wakers.len() as int;
    assert forall|i: int, j: int|
        0 <= i < j < after.wakers.len() && None::<u64> != Some(#[trigger] after.wakers[i].0) && None::<
            u64,
        > != Some(#[trigger] after.wakers[j].0) implies exists|p: int, q: int|
        0 <= p < q < sleepers.wakers.len() && #[trigger] sleepers.wakers[p].0 == after.wakers[i].0
            && #[trigger] sleepers.wakers[q].0 == after.wakers[j].0 by {
        assert(sleepers.wakers[i].0 == after.wakers[i].0);
        assert(sleepers.wakers[j].0 == after.wakers[j].0);
    }
    if let Some(waker) = sleepers.notify_waker() {
        let id = sleepers.wakers[n - 1].0;
        assert(sleepers.wakers[n - 1] == (id, waker));
        assert(holds(sleepers, id, waker));
        law_waits(after, id);
        assert forall|i: int| 0 <= i < after.wakers.len() implies #[trigger] after.wakers[i].0
            != id by {
            assert(after.wakers[i] == sleepers.wakers[i]);
            assert(sleepers.wakers[i].0 != sleepers.wakers[n - 1].0);
        }
        assert(!is_waiting(after, id));
        assert(is_latest(sleepers, None, id)) by {
            assert forall|i: int, j: int|
                0 <= i < j < n && #[trigger] sleepers.wakers[i].0 == id implies None::<u64> == Some(
                #[trigger] sleepers.wakers[j].0,
            ) by {
                lemma_unique(sleepers, i, n - 1);
            }
        }
        assert forall|other: u64, w: Waker| other != id implies (#[trigger] holds(after, other, w)
            <==> holds(sleepers, other, w)) by {
            if holds(after, other, w) {
                let i = choose|i: int| 0 <= i < after.wakers.len() && after.wakers[i] == (other, w);
                assert(sleepers.wakers[i] == (other, w));
            }
            if holds(sleepers, other, w) {
                let i = choose|i: int| 0 <= i < n && sleepers.wakers[i] == (other, w);
                assert(after.wakers[i] == (other, w));
            }
        }
        assert(rouses_one(sleepers, after, None, waker, id));
    }
}

/// Whatever the list holds, a notification takes the last entry and nothing else, and hands out its
/// waker. It does so exactly if there are as many entries as tickers are counted.
pub proof fn law_notify_takes_last(sleepers: SleepersView)
    ensures
        ({
            let after = sleepers.after_notify();
            &&& after.count == sleepers.count
            &&& after.ids == sleepers.ids
            &&& after.id_gen == sleepers.id_gen
            &&& match sleepers.notify_waker() {
                Some(waker) => {
                    &&& sleepers.wakers.len() == sleepers.count
                    &&& sleepers.wakers.last().1 == waker
                    &&& after.wakers.push(sleepers.wakers.last()) == sleepers.wakers
                },
                None => {
                    &&& sleepers.wakers.len() == 0 || sleepers.wakers.len() != sleepers.count
                    &&& after.wakers == sleepers.wakers
                },
            }
        }),
{
    if sleepers.notify_waker() is Some {
        assert(sleepers.after_notify().wakers.push(sleepers.wakers.last()) =~= sleepers.wakers);
    }
}

/// A ticker that leaves the list, and a notification after that, make up one step.
proof fn lemma_leave_and_notify(
    before: SleepersView,
    between: SleepersView,
    after: SleepersView,
    own: Option<u64>,
    waker: Option<Waker>,
)
    requires
        before.wf(),
        between.wf(),
        others_as_before(before, between, own),
        own matches Some(id) ==> is_awake(between, id),
        rouses(between, after, None, waker),
    ensures
        rouses(before, after, own, waker),
        all_wait(before, own) <==> all_wait(between, None),
        own matches Some(id) ==> is_awake(after, id),
{
    assert forall|id: u64| own != Some(id) implies (#[trigger] is_waiting(between, id)
        <==> is_waiting(before, id)) by {
        if is_waiting(between, id) {
            let w = choose|w: Waker| #[trigger] holds(between, id, w);
            assert(holds(before, id, w));
        }
        if is_waiting(before, id) {
            let w = choose|w: Waker| #[trigger] holds(before, id, w);
            assert(holds(between, id, w));
        }
    }
    assert(all_wait(before, own) <==> all_wait(between, None)) by {
        if all_wait(before, own) {
            let id = choose|id: u64| #[trigger] before.ids.contains(id) && own != Some(id);
            assert(between.ids.contains(id));
            assert forall|id: u64| #[trigger] between.ids.contains(id) implies is_waiting(
                between,
                id,
            ) by {
                assert(own != Some(id));
                assert(before.ids.contains(id));
                assert(is_waiting(before, id));
            }
        }
        if all_wait(between, None) {
            let id = choose|id: u64| #[trigger] between.ids.contains(id);
            assert(own != Some(id));
            assert(before.ids.contains(id));
            assert forall|id: u64| #[trigger] before.ids.contains(id) && own != Some(id) implies
                is_waiting(before, id) by {
                assert(between.ids.contains(id));
                assert(is_waiting(between, id));
            }
        }
    }
    assert forall|i: int| 0 <= i < between.wakers.len() implies own != Some(
        #[trigger] between.wakers[i].0,
    ) by {
        let id = between.wakers[i].0;
        if own == Some(id) {
            law_waits(between, id);
            assert(between.wakers[i].0 == id);
        }
    }
    assert(keeps_order(before, after, own)) by {
        assert(keeps_order(between, after, None));
        assert forall|i: int, j: int|
            0 <= i < j < after.wakers.len() && own != Some(#[trigger] after.wakers[i].0) && own
                != Some(#[trigger] after.wakers[j].0) implies exists|p: int, q: int|
            0 <= p < q < before.wakers.len() && #[trigger] before.wakers[p].0 == after.wakers[i].0
                && #[trigger] before.wakers[q].0 == after.wakers[j].0 by {
            let (p, q) = choose|p: int, q: int|
                0 <= p < q < between.wakers.len() && #[trigger] between.wakers[p].0
                    == after.wakers[i].0 && #[trigger] between.wakers[q].0 == after.wakers[j].0;
            assert(own != Some(between.wakers[p].0) && own != Some(between.wakers[q].0));
        }
    }
    assert(same_sleepers(before, after, own)) by {
        assert(same_sleepers(between, after, None));
        assert forall|id: u64| own != Some(id) implies (#[trigger] after.ids.contains(id)
            <==> before.ids.contains(id)) by {
            assert(between.ids.contains(id) <==> before.ids.contains(id));
        }
    }
    match waker {
        Some(waker) => {
            let id = choose|id: u64| #[trigger] rouses_one(between, after, None, waker, id);
            assert(between.ids.contains(id));
            assert(own != Some(id));
            assert(before.ids.contains(id));
            assert(holds(before, id, waker));
            assert(is_latest(before, own, id)) by {
                let last = choose|i: int|
                    0 <= i < between.wakers.len() && #[trigger] between.wakers[i] == (id, waker);
                assert forall|i: int, j: int|
                    0 <= i < j < before.wakers.len() && #[trigger] before.wakers[i].0
                        == id implies own == Some(#[trigger] before.wakers[j].0) by {
                    let other = before.wakers[j].0;
                    if own != Some(other) {
                        assert(before.wakers[j] == (other, before.wakers[j].1));
                        assert(holds(before, other, before.wakers[j].1));
                        assert(holds(between, other, before.wakers[j].1));
                        let m = choose|m: int|
                            0 <= m < between.wakers.len() && #[trigger] between.wakers[m] == (
                                other,
                                before.wakers[j].1,
                            );
                        assert(between.wakers[last].0 == id);
                        assert(between.wakers[m].0 == other);
                        if last < m {
                            assert(false);
                        } else if m < last {
                            let (p, q) = choose|p: int, q: int|
                                0 <= p < q < before.wakers.len() && #[trigger] before.wakers[p].0
                                    == between.wakers[m].0 && #[trigger] before.wakers[q].0
                                    == between.wakers[last].0;
                            lemma_unique(before, p, j);
                            lemma_unique(before, q, i);
                        } else {
                            lemma_unique(before, i, j);
                        }
                    }
                }
            }
            assert forall|other: u64, w: Waker| own != Some(other) && other != id implies (
            #[trigger] holds(after, other, w) <==> holds(before, other, w)) by {
                assert(holds(between, other, w) <==> holds(before, other, w));
            }
            assert(rouses_one(before, after, own, waker, id));
            if let Some(me) = own {
                if is_waiting(after, me) {
                    let w = choose|w: Waker| #[trigger] holds(after, me, w);
                    assert(holds(between, me, w));
                }
            }
        },
        None => {
            assert forall|other: u64, w: Waker| own != Some(other) implies (#[trigger] holds(
                after,
                other,
                w,
            ) <==> holds(before, other, w)) by {
                assert(holds(between, other, w) <==> holds(before, other, w));
            }
            if let Some(me) = own {
                if is_waiting(after, me) {
                    let w = choose|w: Waker| #[trigger] holds(after, me, w);
                    assert(holds(between, me, w));
                }
            }
        },
    }
}

/// Nothing has happened.
proof fn lemma_nothing(sleepers: SleepersView, own: Option<u64>)
    ensures
        others_as_before(sleepers, sleepers, own),
{
    assert forall|i: int, j: int|
        0 <= i < j < sleepers.wakers.len() && own != Some(#[trigger] sleepers.wakers[i].0) && own
            != Some(#[trigger] sleepers.wakers[j].0) implies exists|p: int, q: int|
        0 <= p < q < sleepers.wakers.len() && #[trigger] sleepers.wakers[p].0
            == sleepers.wakers[i].0 && #[trigger] sleepers.wakers[q].0
            == sleepers.wakers[j].0 by {
        assert(sleepers.wakers[i].0 == sleepers.wakers[i].0 && sleepers.wakers[j].0
            == sleepers.wakers[j].0);
    }
}

/// A notification of the executor wakes one ticker if some sleep and all of these wait, and does
/// nothing otherwise.
pub proof fn law_state_notify(state: StateView)
    requires
        state.wf(),
    ensures
        rouses(state.sleepers, state.after_notify().sleepers, None, state.notify_waker()),
        state.notify_waker() is Some <==> all_wait(state.sleepers, None),
        same_queues(state, state.after_notify()),
        flag_is_right(state.after_notify()),
        state.after_notify().notified,
        state.after_notify().wf(),
        state.after_notify().sleepers.id_gen == state.sleepers.id_gen,
{
    law_notify(state.sleepers);
    law_flag(state);
    state.lemma_notify();
    law_flag(state.after_notify());
    lemma_nothing(state.sleepers, None);
}

/// A task that is scheduled stands last in the global queue, and one ticker is woken for it if some
/// sleep and all of these wait.
pub proof fn law_schedule_wakes(state: StateView, task: u64)
    requires
        state.wf(),
    ensures
        ({
            let after = state.pushed(task).after_notify();
            let waker = state.pushed(task).notify_waker();
            &&& rouses(state.sleepers, after.sleepers, None, waker)
            &&& waker is Some <==> all_wait(state.sleepers, None)
            &&& waker == state.notify_waker()
            &&& flag_is_right(after)
            &&& after.notified
            &&& after.sleepers.id_gen == state.sleepers.id_gen
            &&& after.queue == state.queue.push(task)
            &&& after.shards == state.shards
            &&& after.next_shard == state.next_shard
        }),
{
    law_state_notify(state.pushed(task));
}

/// A ticker that goes to sleep waits to be woken by `waker`: under the ID that it has, or under a new
/// one that no sleeping ticker has.
pub proof fn law_sleep(sleeping: Option<u64>, state: StateView, waker: Waker)
    requires
        state.wf(),
        is_registered(sleeping, state),
        can_sleep(sleeping, state),
    ensures
        ({
            let after = after_sleep(sleeping, state, waker);
            &&& asleep(sleeping, state) matches Some(id)
            &&& falls_asleep(state.sleepers, after.sleepers, id, waker)
            &&& match sleeping {
                Some(own) => id == own && after.sleepers.id_gen == state.sleepers.id_gen,
                None => {
                    &&& is_awake(state.sleepers, id)
                    &&& state.sleepers.id_gen <= id < after.sleepers.id_gen
                },
            }
            &&& same_queues(state, after)
            &&& flag_is_right(after)
            &&& after.wf()
        }),
        is_roused(sleeping, state) <==> (sleeping matches Some(id) ==> !is_waiting(
            state.sleepers,
            id,
        )),
{
    crate::ticker::lemma_asleep(sleeping, state, waker);
    law_flag(after_sleep(sleeping, state, waker));
    match sleeping {
        Some(id) => {
            law_update(state.sleepers, id, waker);
            law_waits(state.sleepers, id);
        },
        None => {
            law_insert(state.sleepers, waker);
        },
    }
}

/// A ticker that wakes up sleeps no more, and nothing else changes.
pub proof fn law_wake(sleeping: Option<u64>, state: StateView)
    requires
        state.wf(),
        is_registered(sleeping, state),
    ensures
        ({
            let after = after_wake(sleeping, state);
            &&& others_as_before(state.sleepers, after.sleepers, sleeping)
            &&& sleeping matches Some(id) ==> is_awake(after.sleepers, id)
            &&& after.sleepers.id_gen == state.sleepers.id_gen
            &&& same_queues(state, after)
            &&& flag_is_right(after)
            &&& after.wf()
        }),
{
    lemma_nothing(state.sleepers, sleeping);
    if let Some(id) = sleeping {
        if state.sleepers.ids.len() == 0 {
            state.sleepers.ids.lemma_len0_is_empty();
        }
        law_remove(state.sleepers, id);
        state.sleepers.lemma_removed_wf(id);
    }
    law_flag(after_wake(sleeping, state));
}

/// A ticker that has found a task sleeps no more, and another one is woken if others sleep and all
/// of these wait. No ticker but the two is concerned.
pub proof fn law_find_wakes(sleeping: Option<u64>, state: StateView)
    requires
        state.wf(),
        is_registered(sleeping, state),
    ensures
        ({
            let after = after_wake(sleeping, state).after_notify();
            let waker = after_wake(sleeping, state).notify_waker();
            &&& rouses(state.sleepers, after.sleepers, sleeping, waker)
            &&& waker is Some <==> all_wait(state.sleepers, sleeping)
            &&& sleeping matches Some(id) ==> is_awake(after.sleepers, id)
            &&& after.sleepers.id_gen == state.sleepers.id_gen
            &&& same_queues(state, after)
            &&& flag_is_right(after)
            &&& after.notified
            &&& after.wf()
        }),
{
    let woken = after_wake(sleeping, state);
    law_wake(sleeping, state);
    law_state_notify(woken);
    lemma_leave_and_notify(
        state.sleepers,
        woken.sleepers,
        woken.after_notify().sleepers,
        sleeping,
        woken.notify_waker(),
    );
}

/// A ticker that goes away sleeps no more. If it was notified, another one is woken in its place if
/// others sleep and all of these wait; otherwise nobody is.
pub proof fn law_drop_wakes(sleeping: Option<u64>, state: StateView)
    requires
        state.wf(),
        is_registered(sleeping, state),
    ensures
        ({
            let after = after_drop(sleeping, state);
            let waker = drop_waker(sleeping, state);
            &&& rouses(state.sleepers, after.sleepers, sleeping, waker)
            &&& waker is Some <==> {
                &&& sleeping matches Some(id)
                &&& !is_waiting(state.sleepers, id)
                &&& all_wait(state.sleepers, sleeping)
            }
            &&& sleeping matches Some(id) ==> is_awake(after.sleepers, id)
            &&& after.sleepers.id_gen == state.sleepers.id_gen
            &&& same_queues(state, after)
            &&& flag_is_right(after)
            &&& after.wf()
        }),
{
    law_wake(sleeping, state);
    law_find_wakes(sleeping, state);
    if let Some(id) = sleeping {
        law_waits(state.sleepers, id);
    }
    assert(passes_on(sleeping, state) <==> (sleeping matches Some(id) && !is_waiting(
        state.sleepers,
        id,
    )));
}

} // verus!
