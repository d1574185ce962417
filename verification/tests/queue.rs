use hopter::queue::{Entry, OrderedQueue};

fn tasks_of(queue: &OrderedQueue) -> Vec<usize> {
    let mut tasks = Vec::new();
    let mut i = 0;
    while let Some(entry) = queue.get(i) {
        tasks.push(entry.task);
        i += 1;
    }
    tasks
}

#[test]
fn entries_leave_smallest_key_first() {
    let mut queue = OrderedQueue::new();
    queue.insert(10, 30);
    queue.insert(11, 10);
    queue.insert(12, 20);
    assert_eq!(queue.len(), 3);
    assert_eq!(queue.pop_front(), Some(Entry { key: 10, task: 11 }));
    assert_eq!(queue.pop_front(), Some(Entry { key: 20, task: 12 }));
    assert_eq!(queue.pop_front(), Some(Entry { key: 30, task: 10 }));
    assert_eq!(queue.pop_front(), None);
    assert!(queue.is_empty());
}

#[test]
fn equal_keys_leave_in_order_of_arrival() {
    let mut queue = OrderedQueue::new();
    queue.insert(3, 5);
    queue.insert(1, 5);
    queue.insert(2, 5);
    queue.insert(9, 4);
    queue.insert(8, 6);
    assert_eq!(tasks_of(&queue), vec![9, 3, 1, 2, 8]);
}

#[test]
fn a_task_is_never_queued_twice() {
    let mut queue = OrderedQueue::new();
    queue.insert(1, 10);
    queue.insert(2, 20);
    queue.insert(1, 30);
    assert_eq!(queue.len(), 2);
    assert_eq!(tasks_of(&queue), vec![2, 1]);
    assert_eq!(queue.front(), Some(Entry { key: 20, task: 2 }));
}

#[test]
fn removal_is_idempotent() {
    let mut queue = OrderedQueue::new();
    queue.insert(1, 10);
    queue.insert(2, 20);
    assert!(queue.contains(1));
    assert!(queue.remove(1));
    assert!(!queue.contains(1));
    assert!(!queue.remove(1));
    assert!(!queue.remove(7));
    assert_eq!(tasks_of(&queue), vec![2]);
}

#[test]
fn count_up_to_counts_the_front_of_the_queue() {
    let mut queue = OrderedQueue::new();
    assert_eq!(queue.count_up_to(5), 0);
    queue.insert(1, 10);
    queue.insert(2, 20);
    queue.insert(3, 20);
    assert_eq!(queue.count_up_to(9), 0);
    assert_eq!(queue.count_up_to(10), 1);
    assert_eq!(queue.count_up_to(19), 1);
    assert_eq!(queue.count_up_to(20), 3);
    assert_eq!(queue.count_up_to(u64::MAX), 3);
    assert_eq!(queue.get(3), None);
}
