use async_executor::sleepers::Sleepers;
use std::sync::{Arc, Mutex};
use std::task::{Wake, Waker};

/// Counts how often it is woken.
struct Counter(Mutex<u32>);

impl Wake for Counter {
    fn wake(self: Arc<Self>) {
        *self.0.lock().unwrap() += 1;
    }
}

fn counter() -> (Arc<Counter>, Waker) {
    let counter = Arc::new(Counter(Mutex::new(0)));
    (counter.clone(), Waker::from(counter))
}

fn woken(counter: &Counter) -> u32 {
    *counter.0.lock().unwrap()
}

#[test]
fn empty_list_counts_as_notified() {
    let mut sleepers = Sleepers::new();
    assert!(sleepers.is_notified());
    assert!(sleepers.notify().is_none());
    assert!(sleepers.can_insert());
}

#[test]
fn ids_count_up_and_are_not_reused() {
    let (_, waker) = counter();
    let mut sleepers = Sleepers::new();
    assert_eq!(sleepers.insert(&waker), 0);
    assert_eq!(sleepers.insert(&waker), 1);
    assert!(!sleepers.remove(1));
    assert_eq!(sleepers.insert(&waker), 2);
}

#[test]
fn notify_wakes_the_last_sleeper_once() {
    let (first, first_waker) = counter();
    let (last, last_waker) = counter();
    let mut sleepers = Sleepers::new();
    sleepers.insert(&first_waker);
    sleepers.insert(&last_waker);
    assert!(!sleepers.is_notified());

    sleepers.notify().unwrap().wake();
    assert_eq!(woken(&first), 0);
    assert_eq!(woken(&last), 1);
    assert!(sleepers.is_notified());
    assert!(sleepers.notify().is_none());
}

#[test]
fn update_of_a_waiting_sleeper_replaces_its_waker() {
    let (old, old_waker) = counter();
    let (new, new_waker) = counter();
    let mut sleepers = Sleepers::new();
    let id = sleepers.insert(&old_waker);
    assert!(!sleepers.update(id, &new_waker));
    sleepers.notify().unwrap().wake();
    assert_eq!(woken(&old), 0);
    assert_eq!(woken(&new), 1);
}

#[test]
fn update_with_the_same_waker_changes_nothing() {
    let (count, waker) = counter();
    let mut sleepers = Sleepers::new();
    let id = sleepers.insert(&waker);
    assert!(!sleepers.update(id, &waker.clone()));
    assert!(!sleepers.is_notified());
    sleepers.notify().unwrap().wake();
    assert_eq!(woken(&count), 1);
    assert!(sleepers.notify().is_none());
}

#[test]
fn update_of_a_notified_sleeper_puts_it_back_last() {
    let (first, first_waker) = counter();
    let (second, second_waker) = counter();
    let mut sleepers = Sleepers::new();
    let a = sleepers.insert(&first_waker);
    let b = sleepers.insert(&second_waker);
    sleepers.notify().unwrap().wake();
    assert_eq!(woken(&second), 1);
    assert!(sleepers.update(b, &second_waker));
    assert!(!sleepers.is_notified());
    assert!(!sleepers.update(a, &first_waker));
    sleepers.notify().unwrap().wake();
    assert_eq!(woken(&second), 2);
    assert_eq!(woken(&first), 0);
}

#[test]
fn remove_tells_whether_the_sleeper_was_notified() {
    let (_, waker) = counter();
    let mut sleepers = Sleepers::new();
    let a = sleepers.insert(&waker);
    let b = sleepers.insert(&waker);
    let c = sleepers.insert(&waker);
    assert!(sleepers.notify().is_some());
    assert!(!sleepers.remove(a));
    assert!(sleepers.is_notified());
    assert!(sleepers.remove(c));
    assert!(!sleepers.is_notified());
    assert!(!sleepers.remove(b));
    assert!(sleepers.is_notified());
}

#[test]
fn removing_from_the_middle_keeps_the_order() {
    let (first, first_waker) = counter();
    let (_, middle_waker) = counter();
    let (last, last_waker) = counter();
    let mut sleepers = Sleepers::new();
    let a = sleepers.insert(&first_waker);
    let b = sleepers.insert(&middle_waker);
    let c = sleepers.insert(&last_waker);
    assert!(!sleepers.remove(b));
    sleepers.notify().unwrap().wake();
    assert_eq!((woken(&first), woken(&last)), (0, 1));
    assert!(sleepers.remove(c));
    sleepers.notify().unwrap().wake();
    assert_eq!((woken(&first), woken(&last)), (1, 1));
    assert!(sleepers.remove(a));
}
