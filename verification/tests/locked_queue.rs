use locks::ds::locked_queue::LockedQueue;

#[test]
fn test_locked_queue() {
    let count = 100000;
    let mut queue: LockedQueue<usize> = LockedQueue::new(1000);
    // five producers and five consumers take turns; a producer whose item is
    // refused and a consumer that finds the queue empty wait for their next turn
    let mut to_produce = vec![count; 5];
    let mut to_consume = vec![count; 5];
    let mut pending: Vec<Option<usize>> = vec![None; 5];
    let mut round = 0usize;
    while to_produce.iter().any(|&c| c > 0) || to_consume.iter().any(|&c| c > 0) {
        round += 1;
        for p in 0..5 {
            for _ in 0..1 + (round + p) % 7 {
                if to_produce[p] == 0 {
                    break;
                }
                let item = pending[p].take().unwrap_or(0);
                match queue.enqueue(item) {
                    Ok(()) => to_produce[p] -= 1,
                    Err(back) => {
                        pending[p] = Some(back);
                        break;
                    },
                }
            }
        }
        for c in 0..5 {
            for _ in 0..1 + (round * 3 + c) % 7 {
                if to_consume[c] == 0 {
                    break;
                }
                match queue.dequeue() {
                    Some(item) => {
                        assert_eq!(item, 0);
                        to_consume[c] -= 1;
                    },
                    None => break,
                }
            }
        }
        assert!(queue.len() <= 1000);
    }
    assert_eq!(queue.len(), 0);
}

#[test]
fn queue_hands_back_newest_first() {
    let mut q: LockedQueue<u32> = LockedQueue::new(3);
    assert_eq!(q.enqueue(1), Ok(()));
    assert_eq!(q.enqueue(2), Ok(()));
    assert_eq!(q.enqueue(3), Ok(()));
    assert_eq!(q.dequeue(), Some(3));
    assert_eq!(q.dequeue(), Some(2));
    assert_eq!(q.enqueue(4), Ok(()));
    assert_eq!(q.dequeue(), Some(4));
    assert_eq!(q.dequeue(), Some(1));
    assert_eq!(q.dequeue(), None);
}

#[test]
fn full_queue_hands_the_item_back() {
    let mut q: LockedQueue<&str> = LockedQueue::new(2);
    assert_eq!(q.enqueue("a"), Ok(()));
    assert_eq!(q.enqueue("b"), Ok(()));
    assert_eq!(q.enqueue("c"), Err("c"));
    assert_eq!(q.len(), 2);
    assert_eq!(q.dequeue(), Some("b"));
    assert_eq!(q.enqueue("c"), Ok(()));
    assert_eq!(q.dequeue(), Some("c"));
}

#[test]
fn queue_without_room_refuses_everything() {
    let mut q: LockedQueue<u8> = LockedQueue::new(0);
    assert_eq!(q.enqueue(7), Err(7));
    assert_eq!(q.dequeue(), None);
    assert_eq!(q.len(), 0);
}

#[test]
fn dequeue_right_after_enqueue_restores_the_queue() {
    let mut q: LockedQueue<i64> = LockedQueue::new(4);
    q.enqueue(-5).unwrap();
    q.enqueue(9).unwrap();
    assert_eq!(q.enqueue(42), Ok(()));
    assert_eq!(q.dequeue(), Some(42));
    assert_eq!(q.len(), 2);
    assert_eq!(q.dequeue(), Some(9));
    assert_eq!(q.dequeue(), Some(-5));
}
