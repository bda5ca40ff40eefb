use local_executor::queue::{TaskQueue, DEFAULT_TASK_QUEUE_SIZE, MAX_TASK_QUEUE_SIZE};

#[test]
fn new_queue_is_empty() {
    let mut q = TaskQueue::new();
    assert!(q.is_empty());
    assert_eq!(q.len(), 0);
    assert_eq!(q.pop(), None);
    assert!(q.is_empty());
}

#[test]
fn default_queue_is_empty() {
    let mut q = TaskQueue::default();
    assert_eq!(q.len(), 0);
    assert_eq!(q.pop(), None);
}

#[test]
fn queue_with_capacity_is_empty_whatever_the_capacity() {
    for capacity in [0usize, 1, 7, DEFAULT_TASK_QUEUE_SIZE] {
        assert!(capacity <= MAX_TASK_QUEUE_SIZE);
        let mut q = TaskQueue::new_with_capacity(capacity);
        assert_eq!(q.len(), 0);
        assert_eq!(q.pop(), None);
    }
}

#[test]
fn queue_grows_past_its_capacity() {
    let mut q = TaskQueue::new_with_capacity(2);
    for id in 0..10u64 {
        q.push(id);
    }
    assert_eq!(q.len(), 10);
    for id in 0..10u64 {
        assert_eq!(q.pop(), Some(id));
    }
    assert_eq!(q.pop(), None);
}

#[test]
fn pop_returns_entries_in_push_order() {
    let mut q = TaskQueue::new();
    q.push(7);
    q.push(3);
    q.push(9);
    assert_eq!(q.len(), 3);
    assert!(!q.is_empty());
    assert_eq!(q.pop(), Some(7));
    assert_eq!(q.pop(), Some(3));
    assert_eq!(q.len(), 1);
    assert_eq!(q.pop(), Some(9));
    assert_eq!(q.pop(), None);
}

#[test]
fn push_does_not_deduplicate() {
    let mut q = TaskQueue::new();
    q.push(4);
    q.push(4);
    q.push(4);
    assert_eq!(q.len(), 3);
    assert_eq!(q.pop(), Some(4));
    assert_eq!(q.pop(), Some(4));
    assert_eq!(q.pop(), Some(4));
    assert_eq!(q.pop(), None);
}

#[test]
fn push_between_pops_goes_to_the_tail() {
    let mut q = TaskQueue::new();
    q.push(1);
    q.push(2);
    assert_eq!(q.pop(), Some(1));
    q.push(3);
    assert_eq!(q.pop(), Some(2));
    assert_eq!(q.pop(), Some(3));
    assert_eq!(q.pop(), None);
}
