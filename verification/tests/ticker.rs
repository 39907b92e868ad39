use async_executor::state::State;
use async_executor::Ticker;
use std::sync::{Arc, Mutex};
use std::task::{Wake, Waker};

/// Counts how often it is woken.
struct Counter(Mutex<u32>);

impl Wake for Counter {
    fn wake(self: Arc<Self>) {
        *self.0.lock().unwrap() += 1;
    }
}

fn counter() -> (Arc<Counter>, Waker) {
    let counter = Arc::new(Counter(Mutex::new(0)));
    (counter.clone(), Waker::from(counter))
}

fn woken(counter: &Counter) -> u32 {
    *counter.0.lock().unwrap()
}

#[test]
fn new_state_notifies_nobody() {
    let mut state = State::new();
    assert!(state.notify().is_none());
    assert!(state.schedule(1).is_none());
    assert!(state.can_sleep());
    assert!(state.can_add_shard());
}

#[test]
fn ticker_sleeps_until_a_task_is_scheduled() {
    let (count, waker) = counter();
    let mut state = State::new();
    let mut ticker = Ticker::new();
    assert!(!ticker.is_sleeping());
    assert!(ticker.poll_tick(&mut state, &waker).is_none());
    assert!(ticker.is_sleeping());

    state.schedule(3).unwrap().wake();
    assert_eq!(woken(&count), 1);
    let tick = ticker.poll_tick(&mut state, &waker).unwrap();
    assert_eq!(tick.task, 3);
    assert!(tick.waker.is_none());
    assert!(!ticker.is_sleeping());
}

#[test]
fn sleep_tells_whether_the_ticker_was_asleep_already() {
    let (_, waker) = counter();
    let mut state = State::new();
    let mut ticker = Ticker::new();
    assert!(ticker.sleep(&mut state, &waker));
    assert!(!ticker.sleep(&mut state, &waker));
    assert!(state.notify().is_some());
    assert!(ticker.sleep(&mut state, &waker));
    assert!(!ticker.sleep(&mut state, &waker));
}

#[test]
fn polling_again_takes_over_the_new_waker() {
    let (old, old_waker) = counter();
    let (new, new_waker) = counter();
    let mut state = State::new();
    let mut ticker = Ticker::new();
    assert!(ticker.poll_tick(&mut state, &old_waker).is_none());
    assert!(ticker.poll_tick(&mut state, &new_waker).is_none());
    state.schedule(3).unwrap().wake();
    assert_eq!((woken(&old), woken(&new)), (0, 1));
}

#[test]
fn waking_undoes_sleeping() {
    let (_, waker) = counter();
    let mut state = State::new();
    let mut ticker = Ticker::new();
    assert!(ticker.sleep(&mut state, &waker));
    ticker.wake(&mut state);
    assert!(!ticker.is_sleeping());
    // No ticker sleeps, so that there is nobody to notify.
    assert!(state.schedule(1).is_none());
    ticker.wake(&mut state);
    assert!(!ticker.is_sleeping());
}

#[test]
fn one_ticker_is_notified_at_a_time() {
    let (_, waker) = counter();
    let mut state = State::new();
    let mut tickers = [Ticker::new(), Ticker::new(), Ticker::new()];
    for ticker in &mut tickers {
        assert!(ticker.poll_tick(&mut state, &waker).is_none());
    }
    assert!(state.schedule(1).is_some());
    assert!(state.schedule(2).is_none());
    // The notified ticker takes a task and notifies the next one.
    let tick = tickers[2].poll_tick(&mut state, &waker).unwrap();
    assert_eq!(tick.task, 1);
    assert!(tick.waker.is_some());
    let tick = tickers[1].poll_tick(&mut state, &waker).unwrap();
    assert_eq!(tick.task, 2);
    assert!(tick.waker.is_some());
    assert!(tickers[0].poll_tick(&mut state, &waker).is_none());
}

#[test]
fn tasks_are_taken_in_order() {
    let (_, waker) = counter();
    let mut state = State::new();
    let mut ticker = Ticker::new();
    for task in 0..100 {
        assert!(state.schedule(task).is_none());
    }
    for task in 0..100 {
        assert_eq!(ticker.poll_tick(&mut state, &waker).unwrap().task, task);
    }
    assert!(ticker.poll_tick(&mut state, &waker).is_none());
}

#[test]
fn dropped_ticker_passes_its_notification_on() {
    let (first, first_waker) = counter();
    let (second, second_waker) = counter();
    let mut state = State::new();
    let mut a = Ticker::new();
    let mut b = Ticker::new();
    assert!(a.poll_tick(&mut state, &first_waker).is_none());
    assert!(b.poll_tick(&mut state, &second_waker).is_none());
    state.schedule(1).unwrap().wake();
    assert_eq!((woken(&first), woken(&second)), (0, 1));
    b.drop(&mut state).unwrap().wake();
    assert_eq!((woken(&first), woken(&second)), (1, 1));
    assert_eq!(a.poll_tick(&mut state, &first_waker).unwrap().task, 1);
}

#[test]
fn dropped_ticker_that_was_not_notified_wakes_nobody() {
    let (_, waker) = counter();
    let mut state = State::new();
    let mut a = Ticker::new();
    let mut b = Ticker::new();
    assert!(a.poll_tick(&mut state, &waker).is_none());
    assert!(b.poll_tick(&mut state, &waker).is_none());
    assert!(a.drop(&mut state).is_none());
    assert!(Ticker::new().drop(&mut state).is_none());
    // The other one is still asleep.
    assert!(state.schedule(1).is_some());
    // It is the last one, so that nobody is left to take its notification.
    assert!(b.drop(&mut state).is_none());
    assert!(state.schedule(2).is_none());
}
