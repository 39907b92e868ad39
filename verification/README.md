# async-executor

Async executors, with the scheduling verified in Verus.

An executor keeps a global queue of scheduled tasks. Workers take tasks from it:

- a *ticker* takes tasks from the global queue alone;
- a *runner* keeps a bounded shard of the queue, steals half of the global queue or of another
  runner's shard when its own is empty, and steals from the global queue at regular intervals so
  that tasks there do not wait forever.

A worker that finds nothing goes to sleep. Scheduling a task notifies at most one sleeping worker,
and a notified worker that finds a task notifies the next one.

## Layout

`src/` is the library. It decides which task is run next and which worker is woken:

| module      | contents                                                        |
|-------------|-----------------------------------------------------------------|
| `sleepers`  | the list of sleeping workers                                    |
| `queue`     | task queues, and stealing from one into another                 |
| `state`     | the global queue, the shards and the sleeping workers together  |
| `ticker`    | tickers                                                         |
| `runner`    | runners                                                         |
| `executor`  | `Executor` and `LocalExecutor`, which keep the runnables        |
| `task`      | handles of spawned futures                                      |
| `scheduled` | laws: no task is lost and none is doubled                       |
| `laws`      | laws on notifications, fairness, and what each operation leaves |
| `waker`, `random` | what is relied on about `Waker` and about random numbers  |

Every operation takes the executor by exclusive reference and returns what is left to do: a runnable
to run, and a waker to wake. What is woken may schedule tasks itself, so an operation stops where it
hands out a waker, and another call goes on from there.

`app/` is the asynchronous interface. It keeps an executor behind a lock and does what the library
hands out: it runs the runnables and wakes the wakers, outside of the lock.

`tests/` runs the library, with plain values and with futures.

## What is relied on

The queues are `concurrent_queue::ConcurrentQueue`s of task numbers, the starting point of a search
through the shards is picked by `fastrand`. What the library relies on about them, and about
`std::task::Waker`, is written down next to the wrappers in `queue`, `random` and `waker`, and is not
proved. Everything else in `src/` is.
