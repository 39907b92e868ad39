use async_executor::queue::steal;
use concurrent_queue::ConcurrentQueue;

fn filled(queue: ConcurrentQueue<u64>, tasks: std::ops::Range<u64>) -> ConcurrentQueue<u64> {
    for task in tasks {
        queue.push(task).unwrap();
    }
    queue
}

fn drained(queue: ConcurrentQueue<u64>) -> Vec<u64> {
    let mut tasks = Vec::new();
    while let Ok(task) = queue.pop() {
        tasks.push(task);
    }
    tasks
}

#[test]
fn steal_takes_half_rounded_up_from_the_front() {
    let mut src = filled(ConcurrentQueue::unbounded(), 0..5);
    let mut dest = filled(ConcurrentQueue::bounded(8), 10..12);
    steal(&mut src, &mut dest);
    assert_eq!(drained(src), vec![3, 4]);
    assert_eq!(drained(dest), vec![10, 11, 0, 1, 2]);
}

#[test]
fn steal_takes_exactly_half_of_an_even_number() {
    let mut src = filled(ConcurrentQueue::unbounded(), 0..6);
    let mut dest = ConcurrentQueue::unbounded();
    steal(&mut src, &mut dest);
    assert_eq!(drained(src), vec![3, 4, 5]);
    assert_eq!(drained(dest), vec![0, 1, 2]);
}

#[test]
fn steal_takes_a_single_task() {
    let mut src = filled(ConcurrentQueue::bounded(1), 7..8);
    let mut dest = ConcurrentQueue::bounded(1);
    steal(&mut src, &mut dest);
    assert_eq!(drained(src), Vec::<u64>::new());
    assert_eq!(drained(dest), vec![7]);
}

#[test]
fn steal_takes_no_more_than_fits() {
    let mut src = filled(ConcurrentQueue::unbounded(), 0..10);
    let mut dest = filled(ConcurrentQueue::bounded(4), 20..22);
    steal(&mut src, &mut dest);
    assert_eq!(drained(src), vec![2, 3, 4, 5, 6, 7, 8, 9]);
    assert_eq!(drained(dest), vec![20, 21, 0, 1]);
}

#[test]
fn steal_into_a_full_queue_moves_nothing() {
    let mut src = filled(ConcurrentQueue::unbounded(), 0..3);
    let mut dest = filled(ConcurrentQueue::bounded(2), 20..22);
    steal(&mut src, &mut dest);
    assert_eq!(drained(src), vec![0, 1, 2]);
    assert_eq!(drained(dest), vec![20, 21]);
}

#[test]
fn steal_from_an_empty_queue_moves_nothing() {
    let mut src = ConcurrentQueue::unbounded();
    let mut dest = filled(ConcurrentQueue::bounded(2), 20..21);
    steal(&mut src, &mut dest);
    assert_eq!(drained(src), Vec::<u64>::new());
    assert_eq!(drained(dest), vec![20]);
}

#[test]
fn steal_empties_a_closed_queue_too() {
    let mut src = filled(ConcurrentQueue::unbounded(), 0..3);
    src.close();
    let mut dest = ConcurrentQueue::unbounded();
    steal(&mut src, &mut dest);
    assert_eq!(drained(src), vec![2]);
    assert_eq!(drained(dest), vec![0, 1]);
}

#[test]
fn steal_leaves_a_closed_queue_alone_if_there_is_nothing_to_move() {
    let mut src = ConcurrentQueue::unbounded();
    let mut dest = filled(ConcurrentQueue::unbounded(), 20..21);
    dest.close();
    steal(&mut src, &mut dest);
    assert_eq!(drained(dest), vec![20]);
}
