use async_executor::executor::BATCH_SIZE;
use async_executor::{Batch, Executor, LocalExecutor, RunStep, Runner, Ticker};
use std::sync::{Arc, Mutex};
use std::task::{Wake, Waker};

/// Counts how often it is woken.
struct Counter(Mutex<u32>);

impl Wake for Counter {
    fn wake(self: Arc<Self>) {
        *self.0.lock().unwrap() += 1;
    }
}

fn counter() -> (Arc<Counter>, Waker) {
    let counter = Arc::new(Counter(Mutex::new(0)));
    (counter.clone(), Waker::from(counter))
}

fn woken(counter: &Counter) -> u32 {
    *counter.0.lock().unwrap()
}

/// Takes a runner out of the executor, and returns how many wakers there were.
fn leave<R>(ex: &mut Executor<R>, runner: Runner) -> usize {
    let mut wakers = 0;
    let mut leaving = ex.drop_runner(runner);
    assert!(ex.can_leave(&leaving));
    while let Some(waker) = ex.leave(&mut leaving) {
        waker.wake();
        wakers += 1;
    }
    assert!(ex.leave(&mut leaving).is_none());
    wakers
}

#[test]
fn try_tick_finds_a_spawned_task() {
    let mut ex = Executor::new();
    assert!(ex.try_tick().is_none()); // no tasks to run
    let (task, waker) = ex.spawn("hello", 7);
    assert!(waker.is_none());
    assert_eq!(task.drop(), Some(&7));
    let job = ex.try_tick().unwrap(); // a task was found
    assert_eq!(job.runnable, "hello");
    assert!(job.waker.is_none());
    assert!(ex.try_tick().is_none());
}

#[test]
fn tick_runs_the_task() {
    let (_, waker) = counter();
    let mut ex = Executor::new();
    ex.schedule("hello");
    let mut ticker = Ticker::new();
    assert_eq!(ex.tick(&mut ticker, &waker).unwrap().runnable, "hello");
    assert!(ex.drop_ticker(ticker).is_none());
}

#[test]
fn tick_waits_until_a_task_is_scheduled() {
    let (count, waker) = counter();
    let mut ex = Executor::new();
    let mut ticker = Ticker::new();
    assert!(ex.tick(&mut ticker, &waker).is_none());
    assert!(ticker.is_sleeping());
    ex.schedule("hello").unwrap().wake();
    assert_eq!(woken(&count), 1);
    assert_eq!(ex.tick(&mut ticker, &waker).unwrap().runnable, "hello");
    assert!(!ticker.is_sleeping());
}

#[test]
fn spawn_wakes_a_sleeping_ticker() {
    let (count, waker) = counter();
    let mut ex = Executor::new();
    let mut ticker = Ticker::new();
    assert!(ex.tick(&mut ticker, &waker).is_none());
    let (mut task, waker) = ex.spawn("hello", ());
    waker.unwrap().wake();
    assert_eq!(woken(&count), 1);
    task.detach();
}

#[test]
fn try_tick_notifies_a_ticker() {
    let (count, waker) = counter();
    let mut ex = Executor::new();
    let (mut a, mut b) = (Ticker::new(), Ticker::new());
    assert!(ex.tick(&mut a, &waker).is_none());
    assert!(ex.tick(&mut b, &waker).is_none());
    assert!(ex.schedule("first").is_some());
    assert!(ex.schedule("second").is_none());
    // The notified ticker goes away, and the other one is notified.
    assert!(ex.drop_ticker(b).is_some());
    assert!(ex.try_tick().unwrap().waker.is_none());
    assert_eq!(ex.tick(&mut a, &waker).unwrap().runnable, "second");
    assert!(ex.tick(&mut a, &waker).is_none());
    assert!(ex.schedule("third").is_some());
    assert_eq!(woken(&count), 0);
}

#[test]
fn run_waits_if_there_is_no_task() {
    let (count, waker) = counter();
    let mut ex = Executor::<u32>::new();
    let mut runner = ex.add_runner();
    let mut batch = Batch::new();
    assert!(matches!(ex.run(&mut runner, &mut batch, &waker), RunStep::Wait));
    assert!(runner.is_sleeping());
    ex.schedule(1).unwrap().wake();
    assert_eq!(woken(&count), 1);
    match ex.run(&mut runner, &mut Batch::new(), &waker) {
        RunStep::Run(found) => assert_eq!(ex.bump(&mut runner, found), 1),
        _ => panic!("no task"),
    }
    assert!(!runner.is_sleeping());
}

#[test]
fn run_yields_after_a_batch() {
    let (_, waker) = counter();
    let mut ex = Executor::new();
    let mut runner = ex.add_runner();
    for i in 0..300 {
        ex.schedule(i);
    }
    assert_eq!(BATCH_SIZE, 200);
    let mut batch = Batch::new();
    for i in 0..200 {
        match ex.run(&mut runner, &mut batch, &waker) {
            RunStep::Run(found) => assert_eq!(ex.bump(&mut runner, found), i),
            _ => panic!("no task"),
        }
    }
    assert!(matches!(ex.run(&mut runner, &mut batch, &waker), RunStep::Yield));
    assert!(matches!(ex.run(&mut runner, &mut batch, &waker), RunStep::Yield));
    assert!(!runner.is_sleeping());
    let mut batch = Batch::new();
    for i in 200..300 {
        match ex.run(&mut runner, &mut batch, &waker) {
            RunStep::Run(found) => assert_eq!(ex.bump(&mut runner, found), i),
            _ => panic!("no task"),
        }
    }
    assert!(matches!(ex.run(&mut runner, &mut batch, &waker), RunStep::Wait));
}

#[test]
fn run_notifies_another_runner() {
    let (first, first_waker) = counter();
    let (second, second_waker) = counter();
    let mut ex = Executor::new();
    let mut a = ex.add_runner();
    let mut b = ex.add_runner();
    assert!(matches!(ex.run(&mut a, &mut Batch::new(), &first_waker), RunStep::Wait));
    assert!(matches!(ex.run(&mut b, &mut Batch::new(), &second_waker), RunStep::Wait));
    ex.schedule("hello").unwrap().wake();
    assert_eq!((woken(&first), woken(&second)), (0, 1));
    match ex.run(&mut b, &mut Batch::new(), &second_waker) {
        RunStep::Run(mut found) => {
            found.take_waker().unwrap().wake();
            assert!(found.take_waker().is_none());
            assert_eq!(ex.bump(&mut b, found), "hello");
        }
        _ => panic!("no task"),
    }
    assert_eq!((woken(&first), woken(&second)), (1, 1));
}

#[test]
fn dropped_runner_leaves_its_tasks_to_others() {
    let (_, waker) = counter();
    let mut ex = Executor::new();
    let mut runner = ex.add_runner();
    for i in 0..5 {
        ex.schedule(i);
    }
    match ex.run(&mut runner, &mut Batch::new(), &waker) {
        RunStep::Run(found) => assert_eq!(ex.bump(&mut runner, found), 0),
        _ => panic!("no task"),
    }
    // 1 and 2 have moved into the shard, and then 3.
    assert_eq!(ex.try_tick().unwrap().runnable, 4);
    assert!(ex.try_tick().is_none());
    let mut ticker = Ticker::new();
    assert!(ex.tick(&mut ticker, &waker).is_none());
    assert_eq!(leave(&mut ex, runner), 1);
    assert_eq!(ex.tick(&mut ticker, &waker).unwrap().runnable, 1);
    assert_eq!(ex.try_tick().unwrap().runnable, 2);
    assert_eq!(ex.try_tick().unwrap().runnable, 3);
    assert!(ex.try_tick().is_none());
}

#[test]
fn task_that_is_woken_is_queued_between_those_of_a_leaving_runner() {
    let (_, waker) = counter();
    let mut ex = Executor::new();
    let mut runner = ex.add_runner();
    for i in 0..4 {
        ex.schedule(i);
    }
    match ex.run(&mut runner, &mut Batch::new(), &waker) {
        RunStep::Run(found) => assert_eq!(ex.bump(&mut runner, found), 0),
        _ => panic!("no task"),
    }
    // 1, 2 and 3 have moved into the shard.
    let mut ticker = Ticker::new();
    assert!(ex.tick(&mut ticker, &waker).is_none());
    let mut leaving = ex.drop_runner(runner);
    assert!(ex.try_tick().is_none());
    // The ticker belongs to a task of this executor, which is scheduled when it is woken.
    assert!(ex.leave(&mut leaving).is_some());
    assert!(ex.schedule(10).is_none());
    assert!(ex.leave(&mut leaving).is_none());
    for i in [1, 10, 2, 3] {
        assert_eq!(ex.try_tick().unwrap().runnable, i);
    }
    assert!(ex.try_tick().is_none());
}

#[test]
fn leaving_runner_passes_its_notification_on() {
    let (first, first_waker) = counter();
    let (second, second_waker) = counter();
    let mut ex = Executor::new();
    let mut ticker = Ticker::new();
    assert!(ex.tick(&mut ticker, &first_waker).is_none());
    let mut runner = ex.add_runner();
    assert!(matches!(ex.run(&mut runner, &mut Batch::new(), &second_waker), RunStep::Wait));
    ex.schedule("hello").unwrap().wake();
    assert_eq!((woken(&first), woken(&second)), (0, 1));
    assert_eq!(leave(&mut ex, runner), 1);
    assert_eq!((woken(&first), woken(&second)), (1, 1));
    assert_eq!(ex.tick(&mut ticker, &first_waker).unwrap().runnable, "hello");
}

#[test]
fn each_task_is_handed_out_once() {
    let (_, waker) = counter();
    let mut ex = Executor::new();
    let mut runners = vec![ex.add_runner(), ex.add_runner(), ex.add_runner()];
    let mut ticker = Ticker::new();
    for i in 0..1000 {
        ex.schedule(i);
    }
    let mut seen = vec![0; 1000];
    for turn in 0..1000 {
        let runnable = match turn % 5 {
            0 => ex.tick(&mut ticker, &waker).map(|job| job.runnable),
            1 => ex.try_tick().map(|job| job.runnable),
            n => match ex.run(&mut runners[n - 2], &mut Batch::new(), &waker) {
                RunStep::Run(found) => Some(ex.bump(&mut runners[n - 2], found)),
                _ => None,
            },
        };
        if let Some(i) = runnable {
            seen[i] += 1;
        }
        if turn == 500 {
            let runner = runners.remove(0);
            leave(&mut ex, runner);
            runners.push(ex.add_runner());
        }
    }
    for runner in runners {
        leave(&mut ex, runner);
    }
    while let Some(job) = ex.try_tick() {
        seen[job.runnable] += 1;
    }
    assert_eq!(seen, vec![1; 1000]);
}

#[test]
fn new_executor_has_room() {
    let mut ex = Executor::<u32>::default();
    assert!(ex.can_schedule());
    assert!(ex.can_add_runner());
    assert!(ex.can_sleep());
    assert!(ex.try_tick().is_none());
}

#[test]
fn local_executor_runs_tasks() {
    let (_, waker) = counter();
    let mut ex = LocalExecutor::new();
    assert!(ex.try_tick().is_none()); // no tasks to run
    let (mut task, _) = ex.spawn("spawned", 3);
    assert_eq!(*task.poll(), 3);
    assert_eq!(ex.try_tick().unwrap().runnable, "spawned"); // a task was found
    let mut ticker = Ticker::new();
    assert!(ex.tick(&mut ticker, &waker).is_none());
    assert!(ex.schedule("woken").is_some());
    assert_eq!(ex.tick(&mut ticker, &waker).unwrap().runnable, "woken");
    assert!(ex.inner().drop_ticker(ticker).is_none());

    let mut runner = ex.inner().add_runner();
    let mut batch = Batch::new();
    assert!(matches!(ex.run(&mut runner, &mut batch, &waker), RunStep::Wait));
    assert!(ex.schedule("again").is_some());
    match ex.run(&mut runner, &mut batch, &waker) {
        RunStep::Run(found) => assert_eq!(ex.inner().bump(&mut runner, found), "again"),
        _ => panic!("no task"),
    }
    assert_eq!(leave(ex.inner(), runner), 0);
    assert!(LocalExecutor::<u32>::default().try_tick().is_none());
}
