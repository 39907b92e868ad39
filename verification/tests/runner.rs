use async_executor::runner::FAIRNESS_INTERVAL;
use async_executor::state::{State, SHARD_CAPACITY};
use async_executor::ticker::Tick;
use async_executor::{Runner, Ticker};
use std::sync::{Arc, Mutex};
use std::task::{Wake, Waker};

/// Counts how often it is woken.
struct Counter(Mutex<u32>);

impl Wake for Counter {
    fn wake(self: Arc<Self>) {
        *self.0.lock().unwrap() += 1;
    }
}

fn counter() -> (Arc<Counter>, Waker) {
    let counter = Arc::new(Counter(Mutex::new(0)));
    (counter.clone(), Waker::from(counter))
}

fn woken(counter: &Counter) -> u32 {
    *counter.0.lock().unwrap()
}

/// Takes all tasks that are left in the global queue.
fn drain(state: &mut State) -> Vec<u64> {
    let (_, waker) = counter();
    let mut ticker = Ticker::new();
    let mut tasks = Vec::new();
    while let Some(tick) = ticker.poll_tick(state, &waker) {
        tasks.push(tick.task);
    }
    assert!(ticker.drop(state).is_none());
    tasks
}

/// Polls a runner, and lets it count the task that it finds.
fn run(runner: &mut Runner, state: &mut State, waker: &Waker) -> Option<Tick> {
    let tick = runner.poll_tick(state, waker)?;
    runner.bump(state);
    Some(tick)
}

/// Takes a runner out of the executor, and returns the wakers.
fn leave(runner: Runner, state: &mut State) -> Vec<Waker> {
    let mut wakers = Vec::new();
    let (ticker, mut shard) = runner.drop(state);
    while let Some(task) = shard.pop() {
        wakers.extend(state.schedule(task));
    }
    wakers.extend(ticker.drop(state));
    wakers
}

/// A runner whose shard holds as many of `tasks` as it steals.
fn runner_with(state: &mut State, tasks: std::ops::Range<u64>) -> Runner {
    let runner = Runner::new(state);
    for task in tasks {
        state.schedule(task);
    }
    assert!(runner.search(state).is_some());
    runner
}

#[test]
fn constants() {
    assert_eq!(SHARD_CAPACITY, 512);
    assert_eq!(FAIRNESS_INTERVAL, 64);
}

#[test]
fn search_takes_from_the_global_queue_and_steals_half_of_the_rest() {
    let mut state = State::new();
    let runner = Runner::new(&mut state);
    for task in 0..6 {
        state.schedule(task);
    }
    // 0 is taken, and half of the five others moves into the shard.
    assert_eq!(runner.search(&mut state), Some(0));
    assert_eq!(drain(&mut state), vec![4, 5]);
    // The shard comes first.
    state.schedule(9);
    assert_eq!(runner.search(&mut state), Some(1));
    assert_eq!(runner.search(&mut state), Some(2));
    assert_eq!(runner.search(&mut state), Some(3));
    assert_eq!(runner.search(&mut state), Some(9));
    assert_eq!(runner.search(&mut state), None);
}

#[test]
fn search_does_not_overfill_the_shard() {
    let mut state = State::new();
    let runner = Runner::new(&mut state);
    for task in 0..2001 {
        state.schedule(task);
    }
    assert_eq!(runner.search(&mut state), Some(0));
    let left = drain(&mut state);
    assert_eq!(left.len(), 2000 - SHARD_CAPACITY);
    assert_eq!(left[0], 513);
}

#[test]
fn search_steals_from_other_shards() {
    let mut state = State::new();
    // The shard of `rich` holds 1 and 2; 3 and 4 are drained.
    let rich = runner_with(&mut state, 0..5);
    assert_eq!(drain(&mut state), vec![3, 4]);
    let poor = Runner::new(&mut state);
    assert_eq!(poor.search(&mut state), Some(1));
    assert_eq!(poor.search(&mut state), Some(2));
    assert_eq!(poor.search(&mut state), None);
    assert_eq!(rich.search(&mut state), None);
}

#[test]
fn search_starts_at_the_given_shard_and_starts_over() {
    for (start, first) in [(0, 11), (1, 11), (2, 21), (3, 11)] {
        let mut state = State::new();
        let own = Runner::new(&mut state);
        let a = runner_with(&mut state, 10..14);
        assert_eq!(drain(&mut state), vec![13]);
        let b = runner_with(&mut state, 20..24);
        assert_eq!(drain(&mut state), vec![23]);
        let empty = Runner::new(&mut state);
        // One of the two tasks of the victim's shard is stolen, and taken.
        assert_eq!(own.search_shards(&mut state, start), Some(first));
        let (victim, other) = if first == 11 { (&a, &b) } else { (&b, &a) };
        assert_eq!(victim.search(&mut state), Some(first + 1));
        assert!(other.search(&mut state).is_some());
        assert!(other.search(&mut state).is_some());
        assert_eq!(empty.search_shards(&mut state, start), None);
        assert_eq!(own.search(&mut state), None);
    }
}

#[test]
fn search_leaves_the_start_to_chance() {
    let mut firsts = [0, 0];
    for _ in 0..500 {
        let mut state = State::new();
        let own = Runner::new(&mut state);
        let _a = runner_with(&mut state, 10..12);
        let _b = runner_with(&mut state, 20..22);
        drain(&mut state);
        match own.search(&mut state) {
            Some(11) => firsts[0] += 1,
            Some(21) => firsts[1] += 1,
            found => panic!("{:?}", found),
        }
    }
    assert!(firsts[0] > 0);
    assert!(firsts[1] > 0);
}

#[test]
fn runner_sleeps_only_if_all_queues_are_empty() {
    let (_, waker) = counter();
    let mut state = State::new();
    let _rich = runner_with(&mut state, 0..3);
    assert_eq!(drain(&mut state), vec![2]);
    let mut poor = Runner::new(&mut state);
    assert_eq!(poor.poll_tick(&mut state, &waker).unwrap().task, 1);
    assert!(!poor.is_sleeping());
    assert!(poor.poll_tick(&mut state, &waker).is_none());
    assert!(poor.is_sleeping());
}

#[test]
fn sleeping_runner_is_notified() {
    let (count, waker) = counter();
    let mut state = State::new();
    let mut runner = Runner::new(&mut state);
    assert!(run(&mut runner, &mut state, &waker).is_none());
    state.schedule(5).unwrap().wake();
    assert_eq!(woken(&count), 1);
    assert!(state.schedule(6).is_none());
    let tick = run(&mut runner, &mut state, &waker).unwrap();
    assert_eq!(tick.task, 5);
    assert!(tick.waker.is_none());
    assert!(!runner.is_sleeping());
}

#[test]
fn runner_notifies_the_next_one() {
    let (first, first_waker) = counter();
    let (second, second_waker) = counter();
    let mut state = State::new();
    let mut a = Runner::new(&mut state);
    let mut b = Runner::new(&mut state);
    assert!(a.poll_tick(&mut state, &first_waker).is_none());
    assert!(b.poll_tick(&mut state, &second_waker).is_none());
    state.schedule(5).unwrap().wake();
    assert_eq!((woken(&first), woken(&second)), (0, 1));
    let tick = b.poll_tick(&mut state, &second_waker).unwrap();
    tick.waker.unwrap().wake();
    assert_eq!((woken(&first), woken(&second)), (1, 1));
}

#[test]
fn runner_steals_from_the_global_queue_at_regular_intervals() {
    let (_, waker) = counter();
    let mut state = State::new();
    let mut runner = Runner::new(&mut state);
    for task in 0..400 {
        state.schedule(task);
    }
    // 0 is taken and 200 move; at the first tick another 100 of the remaining 199 move.
    assert_eq!(run(&mut runner, &mut state, &waker).unwrap().task, 0);
    for task in 1..64 {
        assert_eq!(run(&mut runner, &mut state, &waker).unwrap().task, task);
    }
    state.schedule(1000);
    // At the tick after 64 tasks, 50 of the 100 in the global queue move.
    assert_eq!(run(&mut runner, &mut state, &waker).unwrap().task, 64);
    let left = drain(&mut state);
    assert_eq!(left.len(), 50);
    assert_eq!(left[0], 351);
    assert_eq!(left[49], 1000);
}

#[test]
fn no_interval_no_steal() {
    let (_, waker) = counter();
    let mut state = State::new();
    let mut runner = Runner::new(&mut state);
    state.schedule(0);
    state.schedule(1);
    assert_eq!(run(&mut runner, &mut state, &waker).unwrap().task, 0);
    state.schedule(2);
    assert_eq!(run(&mut runner, &mut state, &waker).unwrap().task, 1);
    assert_eq!(drain(&mut state), vec![2]);
}

#[test]
fn dispatch_hands_the_task_on() {
    let (_, waker) = counter();
    let mut state = State::new();
    let mut sleeper = Ticker::new();
    assert!(sleeper.sleep(&mut state, &waker));
    let mut runner = Runner::new(&mut state);
    let tick = runner.dispatch(&mut state, 77);
    assert_eq!(tick.task, 77);
    assert!(tick.waker.is_some());
    let tick = runner.dispatch(&mut state, 78);
    assert_eq!(tick.task, 78);
    assert!(tick.waker.is_none());
}

#[test]
fn bump_steals_at_regular_intervals() {
    let mut state = State::new();
    let mut runner = Runner::new(&mut state);
    for round in 0..3 {
        for task in 0..4 {
            state.schedule(10 * round + task);
        }
        // Two of the four tasks move, and none at the next ticks.
        runner.bump(&mut state);
        for _ in 1..FAIRNESS_INTERVAL {
            runner.bump(&mut state);
        }
        assert_eq!(drain(&mut state), vec![10 * round + 2, 10 * round + 3]);
        assert_eq!(runner.search(&mut state), Some(10 * round));
        assert_eq!(runner.search(&mut state), Some(10 * round + 1));
        assert_eq!(runner.search(&mut state), None);
    }
}

#[test]
fn task_that_is_woken_comes_before_the_steal() {
    let (_, waker) = counter();
    let mut state = State::new();
    let mut sleeper = Ticker::new();
    assert!(sleeper.sleep(&mut state, &waker));
    let mut runner = Runner::new(&mut state);
    let tick = runner.dispatch(&mut state, 1);
    assert!(tick.waker.is_some());
    // The ticker belongs to a task of this executor, which is scheduled when it is woken.
    state.schedule(2);
    runner.bump(&mut state);
    // It has moved into the shard.
    assert_eq!(drain(&mut state), Vec::<u64>::new());
    assert_eq!(runner.search(&mut state), Some(2));
}

#[test]
fn dropped_runner_gives_its_tasks_back_in_order() {
    let mut state = State::new();
    let runner = runner_with(&mut state, 0..9);
    // 1 to 4 are in the shard.
    assert!(leave(runner, &mut state).is_empty());
    assert_eq!(drain(&mut state), vec![5, 6, 7, 8, 1, 2, 3, 4]);
}

#[test]
fn dropped_runner_takes_its_shard_along() {
    let mut state = State::new();
    let gone = runner_with(&mut state, 0..3);
    let left = Runner::new(&mut state);
    assert!(leave(gone, &mut state).is_empty());
    assert_eq!(left.search(&mut state), Some(2));
    assert_eq!(left.search(&mut state), Some(1));
    assert_eq!(left.search(&mut state), None);
}

#[test]
fn dropped_runner_wakes_another_one_for_its_tasks() {
    let (count, waker) = counter();
    let mut state = State::new();
    let runner = runner_with(&mut state, 0..3);
    assert_eq!(drain(&mut state), vec![2]);
    let mut ticker = Ticker::new();
    assert!(ticker.poll_tick(&mut state, &waker).is_none());
    let wakers = leave(runner, &mut state);
    assert_eq!(wakers.len(), 1);
    for waker in wakers {
        waker.wake();
    }
    assert_eq!(woken(&count), 1);
    assert_eq!(ticker.poll_tick(&mut state, &waker).unwrap().task, 1);
}

#[test]
fn dropped_runner_passes_its_notification_to_another_one() {
    let (first, first_waker) = counter();
    let (second, second_waker) = counter();
    let mut state = State::new();
    let mut a = Runner::new(&mut state);
    let mut b = Runner::new(&mut state);
    assert!(a.poll_tick(&mut state, &first_waker).is_none());
    assert!(b.poll_tick(&mut state, &second_waker).is_none());
    state.schedule(5).unwrap().wake();
    for waker in leave(b, &mut state) {
        waker.wake();
    }
    assert_eq!((woken(&first), woken(&second)), (1, 1));
    assert_eq!(a.poll_tick(&mut state, &first_waker).unwrap().task, 5);
}

#[test]
fn no_task_is_lost_or_doubled() {
    let (_, waker) = counter();
    let mut state = State::new();
    let mut runners = [
        Runner::new(&mut state),
        Runner::new(&mut state),
        Runner::new(&mut state),
    ];
    let mut seen = vec![0; 3000];
    for round in 0..3 {
        for task in 0..1000 {
            state.schedule(1000 * round + task);
        }
        for turn in 0..700 {
            if let Some(tick) = run(&mut runners[turn % 3], &mut state, &waker) {
                seen[tick.task as usize] += 1;
            }
        }
    }
    let [a, b, c] = runners;
    leave(a, &mut state);
    leave(b, &mut state);
    leave(c, &mut state);
    for task in drain(&mut state) {
        seen[task as usize] += 1;
    }
    assert_eq!(seen, vec![1; 3000]);
}
