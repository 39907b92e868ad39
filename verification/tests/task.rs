use async_executor::Task;

#[test]
fn new_task_is_canceled_when_dropped() {
    let task = Task::new(5u8);
    assert_eq!(task.drop(), Some(&5));
}

#[test]
fn detached_task_is_not_canceled() {
    let mut task = Task::new(5u8);
    assert_eq!(task.detach(), 5);
    assert_eq!(task.drop(), None);
}

#[test]
fn canceled_task_is_not_canceled_again() {
    let mut task = Task::new(String::from("handle"));
    assert_eq!(task.cancel(), "handle");
    assert_eq!(task.drop(), None);
}

#[test]
fn polled_task_keeps_its_handle() {
    let mut task = Task::new(5u8);
    *task.poll() += 1;
    assert_eq!(task.drop(), Some(&6));
}
