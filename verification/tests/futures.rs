//! Executors that run futures.

use async_executor::{Batch, Executor, RunStep, Task, Ticker};
use std::future::Future;
use std::pin::Pin;
use std::sync::{Arc, Mutex};
use std::task::{Context, Poll, Wake, Waker};

type Runnable = async_task::Task<()>;
type Shared = Arc<Mutex<Executor<Runnable>>>;

struct Idle;

impl Wake for Idle {
    fn wake(self: Arc<Self>) {}
}

fn idle() -> Waker {
    Waker::from(Arc::new(Idle))
}

/// Is pending once.
struct Once(bool);

impl Future for Once {
    type Output = ();

    fn poll(mut self: Pin<&mut Self>, cx: &mut Context<'_>) -> Poll<()> {
        if self.0 {
            Poll::Ready(())
        } else {
            self.0 = true;
            cx.waker().wake_by_ref();
            Poll::Pending
        }
    }
}

/// Keeps its waker and is pending once.
struct Keep(Arc<Mutex<Option<Waker>>>, bool);

impl Future for Keep {
    type Output = ();

    fn poll(mut self: Pin<&mut Self>, cx: &mut Context<'_>) -> Poll<()> {
        if self.1 {
            Poll::Ready(())
        } else {
            self.1 = true;
            *self.0.lock().unwrap() = Some(cx.waker().clone());
            Poll::Pending
        }
    }
}

fn spawn<T: Send + 'static>(
    ex: &Shared,
    future: impl Future<Output = T> + Send + 'static,
) -> Task<async_task::JoinHandle<T, ()>> {
    let state = ex.clone();
    let schedule = move |runnable| {
        let waker = state.lock().unwrap().schedule(runnable);
        if let Some(waker) = waker {
            waker.wake();
        }
    };
    let (runnable, handle) = async_task::spawn(future, schedule, ());
    let (task, waker) = ex.lock().unwrap().spawn(runnable, handle);
    if let Some(waker) = waker {
        waker.wake();
    }
    task
}

/// Runs a task, if there is one.
fn try_tick(ex: &Shared) -> bool {
    let job = ex.lock().unwrap().try_tick();
    match job {
        None => false,
        Some(job) => {
            if let Some(waker) = job.waker {
                waker.wake();
            }
            job.runnable.run();
            true
        }
    }
}

fn poll<T>(task: &mut Task<async_task::JoinHandle<T, ()>>) -> Poll<Option<T>> {
    Pin::new(task.poll()).poll(&mut Context::from_waker(&idle()))
}

#[test]
fn future_is_polled_by_try_tick() {
    let ex = Shared::default();
    assert!(!try_tick(&ex));
    let mut task = spawn(&ex, async { 1 + 2 });
    assert!(poll(&mut task).is_pending());
    assert!(try_tick(&ex));
    assert_eq!(poll(&mut task), Poll::Ready(Some(3)));
    assert!(!try_tick(&ex));
}

#[test]
fn woken_future_is_scheduled_again() {
    let ex = Shared::default();
    let mut task = spawn(&ex, async {
        Once(false).await;
        6
    });
    assert!(try_tick(&ex));
    assert!(poll(&mut task).is_pending());
    assert!(try_tick(&ex));
    assert_eq!(poll(&mut task), Poll::Ready(Some(6)));
    assert!(!try_tick(&ex));
}

#[test]
fn runner_runs_futures_until_none_is_left() {
    let ex = Shared::default();
    let sum = Arc::new(Mutex::new(0));
    for i in 0..50 {
        let sum = sum.clone();
        let mut task = spawn(&ex, async move {
            Once(false).await;
            *sum.lock().unwrap() += i;
        });
        drop(task.detach());
    }
    let mut runner = ex.lock().unwrap().add_runner();
    let mut batch = Batch::new();
    let mut polled = 0;
    loop {
        let step = ex.lock().unwrap().run(&mut runner, &mut batch, &idle());
        match step {
            RunStep::Run(mut found) => {
                polled += 1;
                if let Some(waker) = found.take_waker() {
                    waker.wake();
                }
                let runnable = ex.lock().unwrap().bump(&mut runner, found);
                runnable.run();
            }
            RunStep::Wait => break,
            RunStep::Yield => panic!("the batch is large enough"),
        }
    }
    assert_eq!(polled, 100);
    assert_eq!(*sum.lock().unwrap(), 1225);
    let mut leaving = ex.lock().unwrap().drop_runner(runner);
    assert!(ex.lock().unwrap().leave(&mut leaving).is_none());
}

#[test]
fn woken_task_of_the_same_executor_is_stolen() {
    let ex = Shared::default();
    let mut ticker = Ticker::new();

    // A task of the executor whose waker a ticker sleeps with.
    let slot = Arc::new(Mutex::new(None));
    let kept = slot.clone();
    let mut inner = spawn(&ex, async move {
        Keep(kept, false).await;
    });
    drop(inner.detach());
    assert!(try_tick(&ex));
    let waker: Waker = slot.lock().unwrap().take().unwrap();
    assert!(ex.lock().unwrap().tick(&mut ticker, &waker).is_none());

    // A runner is notified, finds a task, and wakes the ticker before it steals.
    let mut runner = ex.lock().unwrap().add_runner();
    let step = ex.lock().unwrap().run(&mut runner, &mut Batch::new(), &idle());
    assert!(matches!(step, RunStep::Wait));
    let mut task = spawn(&ex, async {});
    drop(task.detach());
    let step = ex.lock().unwrap().run(&mut runner, &mut Batch::new(), &idle());
    match step {
        RunStep::Run(mut found) => {
            found.take_waker().unwrap().wake();
            let runnable = ex.lock().unwrap().bump(&mut runner, found);
            runnable.run();
        }
        _ => panic!("no task"),
    }
    // The woken task has moved into the shard.
    assert!(!try_tick(&ex));
    let step = ex.lock().unwrap().run(&mut runner, &mut Batch::new(), &idle());
    assert!(matches!(step, RunStep::Run(_)));
}

#[test]
fn ticker_runs_a_future() {
    let ex = Shared::default();
    let mut ticker = Ticker::new();
    assert!(ex.lock().unwrap().tick(&mut ticker, &idle()).is_none());
    let mut task = spawn(&ex, async { "done" });
    let job = ex.lock().unwrap().tick(&mut ticker, &idle()).unwrap();
    job.runnable.run();
    assert_eq!(poll(&mut task), Poll::Ready(Some("done")));
}

#[test]
fn dropped_task_is_not_polled() {
    let ex = Shared::default();
    let ran = Arc::new(Mutex::new(false));
    let flag = ran.clone();
    let task = spawn(&ex, async move {
        *flag.lock().unwrap() = true;
    });
    task.drop().unwrap().cancel();
    assert!(try_tick(&ex));
    assert!(!*ran.lock().unwrap());
}

#[test]
fn canceled_task_has_no_output() {
    let ex = Shared::default();
    let mut task = spawn(&ex, async { 1 });
    let mut handle = task.cancel();
    handle.cancel();
    assert!(task.drop().is_none());
    while try_tick(&ex) {}
    let output = Pin::new(&mut handle).poll(&mut Context::from_waker(&idle()));
    assert_eq!(output, Poll::Ready(None));
}
