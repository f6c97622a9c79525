use fasthtcacheclean::cache_priority_queue::CachePriorityQueue;

#[test]
fn test_queue() {
    let mut h = CachePriorityQueue::with_capacity(4, 4);
    h.push(5);
    h.push(7);
    h.push(1);
    assert_eq!(h.len(), 3);
    assert_eq!(&h.into_sorted_vec(), &[1, 5, 7]);

    let mut h = CachePriorityQueue::new(2);
    h.push(5);
    h.push(7);
    h.push(1);
    h.push(9);
    assert_eq!(h.len(), 2);
    assert_eq!(&h.into_sorted_vec(), &[1, 5]);

    let mut h = CachePriorityQueue::new(2);
    h.push(5);
    h.clear();
    assert_eq!(h.len(), 0);
    assert_eq!(&h.into_sorted_vec(), &[]);
}

fn smallest(stream: &[u64], limit: usize) -> Vec<u64> {
    let mut sorted = stream.to_vec();
    sorted.sort();
    sorted.truncate(limit);
    sorted
}

fn stream(len: usize, seed: u64) -> Vec<u64> {
    let mut state = seed;
    let mut items = Vec::new();
    for _ in 0..len {
        state = state.wrapping_mul(6364136223846793005).wrapping_add(1442695040888963407);
        items.push((state >> 33) % 1000);
    }
    items
}

/// Whatever is pushed, the queue gives back the smallest in ascending order.
#[test]
fn queue_keeps_the_smallest() {
    for limit in [0usize, 1, 2, 3, 7, 10, 64, 100, 1000] {
        for len in [0usize, 1, 2, 5, 10, 63, 64, 65, 500] {
            let items = stream(len, (limit * 1000 + len) as u64);
            let mut queue = CachePriorityQueue::new(limit);
            for (pushed, item) in items.iter().enumerate() {
                queue.push(*item);
                assert_eq!(queue.len(), (pushed + 1).min(limit));
            }
            assert_eq!(queue.into_sorted_vec(), smallest(&items, limit));
        }
    }
}

/// Items that come in ascending, descending or equal are handled alike.
#[test]
fn queue_orders() {
    let mut queue = CachePriorityQueue::new(5);
    for item in 0..100u32 {
        queue.push(item);
    }
    assert_eq!(queue.into_sorted_vec(), vec![0, 1, 2, 3, 4]);
    let mut queue = CachePriorityQueue::new(5);
    for item in (0..100u32).rev() {
        queue.push(item);
    }
    assert_eq!(queue.into_sorted_vec(), vec![0, 1, 2, 3, 4]);
    let mut queue = CachePriorityQueue::new(3);
    for _ in 0..10 {
        queue.push(7i64);
    }
    queue.push(-1);
    assert_eq!(queue.into_sorted_vec(), vec![-1, 7, 7]);
}

/// A queue that keeps nothing stays empty.
#[test]
fn queue_with_limit_zero() {
    let mut queue = CachePriorityQueue::new(0);
    queue.push(1usize);
    queue.push(0);
    assert_eq!(queue.len(), 0);
    assert_eq!(queue.into_sorted_vec(), Vec::<usize>::new());
}

/// A cleared queue takes items up to its limit again.
#[test]
fn queue_after_clear() {
    let mut queue = CachePriorityQueue::with_capacity(0, 2);
    queue.push(3);
    queue.push(2);
    queue.push(1);
    queue.clear();
    queue.push(9);
    queue.push(8);
    queue.push(10);
    assert_eq!(queue.into_sorted_vec(), vec![8, 9]);
}
