//! Task queues.
//!
//! Tasks are queued by number, in a `concurrent_queue::ConcurrentQueue`. The operations below take
//! the queue by exclusive reference: what a call does to the queue is then all that happens to it.

use concurrent_queue::ConcurrentQueue;
use vstd::prelude::*;

verus! {

/// `concurrent_queue::ConcurrentQueue`, opaque but for the names below.
#[verifier::external_type_specification]
#[verifier::external_body]
#[verifier::reject_recursive_types(T)]
pub struct ExConcurrentQueue<T>(ConcurrentQueue<T>);

/// The tasks in a queue, the one that leaves first in front.
pub uninterp spec fn queue_items(queue: ConcurrentQueue<u64>) -> Seq<u64>;

/// How many tasks a queue takes; `None` if it was made without a limit.
pub uninterp spec fn queue_limit(queue: ConcurrentQueue<u64>) -> Option<usize>;

/// A queue was closed, so that it takes no more tasks.
pub uninterp spec fn queue_closed(queue: ConcurrentQueue<u64>) -> bool;

/// `ConcurrentQueue::unbounded` makes an empty, open queue without a limit.
#[verifier::external_body]
pub(crate) fn queue_unbounded() -> (queue: ConcurrentQueue<u64>)
    ensures
        queue_items(queue) == Seq::<u64>::empty(),
        queue_limit(queue) is None,
        !queue_closed(queue),
{
    ConcurrentQueue::unbounded()
}

/// `ConcurrentQueue::bounded` makes an empty, open queue that takes `capacity` tasks.
///
/// It panics for a capacity of zero, and for one whose slots, of at most 16 bytes each, do not
/// fit into an allocation.
#[verifier::external_body]
pub(crate) fn queue_bounded(capacity: usize) -> (queue: ConcurrentQueue<u64>)
    requires
        0 < capacity <= isize::MAX / 16,
    ensures
        queue_items(queue) == Seq::<u64>::empty(),
        queue_limit(queue) == Some(capacity),
        !queue_closed(queue),
{
    ConcurrentQueue::bounded(capacity)
}

/// `ConcurrentQueue::push` puts `task` behind the others, or hands it back and leaves the queue
/// alone if the queue is closed or holds as many tasks as it takes.
#[verifier::external_body]
pub(crate) fn queue_push(queue: &mut ConcurrentQueue<u64>, task: u64) -> (pushed: Result<(), u64>)
    ensures
        queue_limit(*final(queue)) == queue_limit(*old(queue)),
        queue_closed(*final(queue)) == queue_closed(*old(queue)),
        pushed is Ok <==> !queue_closed(*old(queue)) && (queue_limit(*old(queue)) matches Some(limit)
            ==> queue_items(*old(queue)).len() < limit),
        pushed is Ok ==> queue_items(*final(queue)) == queue_items(*old(queue)).push(task),
        pushed is Err ==> queue_items(*final(queue)) == queue_items(*old(queue)),
        pushed matches Err(back) ==> back == task,
{
    queue.push(task).map_err(|e| e.into_inner())
}

/// `ConcurrentQueue::pop` takes the task in front, or answers with an error and leaves the queue
/// alone if there is none. A closed queue still gives up the tasks that it holds.
#[verifier::external_body]
pub(crate) fn queue_pop(queue: &mut ConcurrentQueue<u64>) -> (task: Option<u64>)
    ensures
        queue_limit(*final(queue)) == queue_limit(*old(queue)),
        queue_closed(*final(queue)) == queue_closed(*old(queue)),
        queue_items(*old(queue)).len() > 0 ==> task == Some(queue_items(*old(queue))[0])
            && queue_items(*final(queue)) == queue_items(*old(queue)).skip(1),
        queue_items(*old(queue)).len() == 0 ==> task is None && queue_items(*final(queue))
            == queue_items(*old(queue)),
{
    queue.pop().ok()
}

/// `ConcurrentQueue::len` counts the tasks. They are never more than the queue takes, nor more
/// than half the range of `usize`, which is what the queue's positions can tell apart.
#[verifier::external_body]
pub(crate) fn queue_len(queue: &mut ConcurrentQueue<u64>) -> (len: usize)
    ensures
        *final(queue) == *old(queue),
        len == queue_items(*old(queue)).len(),
        len <= usize::MAX / 2,
        queue_limit(*old(queue)) matches Some(limit) ==> len <= limit,
{
    queue.len()
}

/// `ConcurrentQueue::capacity` tells the limit that the queue was made with.
#[verifier::external_body]
pub(crate) fn queue_capacity(queue: &ConcurrentQueue<u64>) -> (capacity: Option<usize>)
    ensures
        capacity == queue_limit(*queue),
{
    queue.capacity()
}

/// How many tasks move from a queue with `len` tasks into one with room for `room` more, `None`
/// standing for any number: half of them, rounded up, but not more than fit.
pub open spec fn steal_count(len: nat, room: Option<nat>) -> nat {
    let half = (len + 1) / 2;
    match room {
        Some(room) if room < half => room,
        _ => half,
    }
}

/// The room that is left in a queue.
pub open spec fn queue_room(queue: ConcurrentQueue<u64>) -> Option<nat> {
    match queue_limit(queue) {
        Some(limit) => Some((limit - queue_items(queue).len()) as nat),
        None => None,
    }
}

/// Steals some items from one queue into another.
///
/// The first half of the tasks in `src`, rounded up, moves to the end of `dest` in the same order,
/// as far as it fits there.
pub fn steal(src: &mut ConcurrentQueue<u64>, dest: &mut ConcurrentQueue<u64>)
    requires
        queue_closed(*old(dest)) ==> steal_count(
            queue_items(*old(src)).len(),
            queue_room(*old(dest)),
        ) == 0,
    ensures
        ({
            let count = steal_count(queue_items(*old(src)).len(), queue_room(*old(dest))) as int;
            &&& queue_items(*final(src)) == queue_items(*old(src)).skip(count)
            &&& queue_items(*final(dest)) == queue_items(*old(dest)) + queue_items(*old(src)).take(
                count,
            )
        }),
        queue_limit(*final(src)) == queue_limit(*old(src)),
        queue_closed(*final(src)) == queue_closed(*old(src)),
        queue_limit(*final(dest)) == queue_limit(*old(dest)),
        queue_closed(*final(dest)) == queue_closed(*old(dest)),
{
    let ghost from = queue_items(*src);
    let ghost onto = queue_items(*dest);

    // Half of `src`'s length rounded up.
    let mut count: usize = (queue_len(src) + 1) / 2;

    if count > 0 {
        // Don't steal more than fits into the queue.
        if let Some(cap) = queue_capacity(dest) {
            let room: usize = cap - queue_len(dest);
            if room < count {
                count = room;
            }
        }

        // Steal tasks.
        let mut moved: usize = 0;
        while moved < count
            invariant
                moved <= count <= from.len(),
                count > 0 ==> !queue_closed(*old(dest)),
                queue_limit(*old(dest)) matches Some(limit) ==> onto.len() + count <= limit,
                queue_items(*src) == from.skip(moved as int),
                queue_items(*dest) == onto + from.take(moved as int),
                queue_limit(*src) == queue_limit(*old(src)),
                queue_closed(*src) == queue_closed(*old(src)),
                queue_limit(*dest) == queue_limit(*old(dest)),
                queue_closed(*dest) == queue_closed(*old(dest)),
            decreases count - moved,
        {
            if let Some(task) = queue_pop(src) {
                let pushed = queue_push(dest, task);
                assert(pushed is Ok);
            }
            moved += 1;
            assert(from.skip(moved - 1).skip(1) == from.skip(moved as int));
            assert(from.take(moved - 1).push(from[moved - 1]) == from.take(moved as int));
            assert(onto + from.take(moved as int) == (onto + from.take(moved - 1)).push(
                from[moved - 1],
            ));
        }
    }
}

} // verus!
