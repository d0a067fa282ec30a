use locks::lock::array_lock::{ArrayLock, MAX_THREADS, TAIL};
use locks::lock::backoff_lock::BackoffLock;
use locks::lock::bakery_lock::BakeryLock;
use locks::lock::clh_lock::{CLHLock, CLHNode};
use locks::lock::counter::{CountPhase, CountingRun};
use locks::lock::filter_lock::FilterLock;
use locks::lock::lock::{Lock, RawLock};
use locks::lock::mcs_lock::{MCSLock, MCSNode};
use locks::lock::memory::{MemOp, Memory, NULL};
use locks::lock::peterson_lock::PetersonLock;
use locks::lock::tas_lock::TASLock;
use locks::lock::to_lock::{ToLock, ToNode};
use locks::lock::ttas_lock::TTASLock;

#[test]
fn memory_operations_yield_and_write_as_documented() {
    let mut m = Memory::new(4);
    assert_eq!(m.len(), 4);
    assert_eq!(m.apply(MemOp::Store(1, 7)), 0);
    assert_eq!(m.read(1), 7);
    assert_eq!(m.apply(MemOp::Swap(1, 9)), 7);
    assert_eq!(m.read(1), 9);
    assert_eq!(m.apply(MemOp::FetchOr(2, 1)), 0);
    assert_eq!(m.apply(MemOp::FetchOr(2, 1)), 1);
    assert_eq!(m.read(2), 1);
    assert_eq!(m.apply(MemOp::FetchAdd(3, usize::MAX)), 0);
    assert_eq!(m.read(3), usize::MAX);
    assert_eq!(m.apply(MemOp::FetchAdd(3, 2)), usize::MAX);
    assert_eq!(m.read(3), 1);
    assert_eq!(m.apply(MemOp::CompareExchange(1, 9, 4)), 9);
    assert_eq!(m.read(1), 4);
    assert_eq!(m.apply(MemOp::CompareExchange(1, 9, 5)), 4);
    assert_eq!(m.read(1), 4);
    assert_eq!(m.apply(MemOp::Alloc(5, 6)), 4);
    assert_eq!(m.len(), 6);
    assert_eq!(m.read(4), 5);
    assert_eq!(m.read(5), 6);
    assert_eq!(m.apply(MemOp::Snooze), 0);
    assert_eq!(m.apply(MemOp::Load(0)), 0);
    m.write(0, 11);
    assert_eq!(m.apply(MemOp::Load(0)), 11);
}

#[test]
fn nodes_start_as_their_protocols_need() {
    assert_eq!(CLHNode::new(true).alloc_op(), MemOp::Alloc(1, 0));
    assert_eq!(CLHNode::new(false).alloc_op(), MemOp::Alloc(0, 0));
    assert_eq!(MCSNode::new().alloc_op(), MemOp::Alloc(NULL, 0));
    assert_eq!(ToNode::new().alloc_op(), MemOp::Alloc(NULL, 1));
}

#[test]
fn peterson_lone_thread_enters_on_its_third_step() {
    let mut l = PetersonLock::new();
    assert!(!l.lock(0));
    assert!(!l.lock(0));
    assert!(l.lock(0));
    assert!(l.lock(0));
    l.unlock(0);
    assert!(!l.lock(1));
    assert!(!l.lock(1));
    assert!(l.lock(1));
}

#[test]
fn peterson_waits_for_the_holder() {
    let mut l = PetersonLock::new();
    while !l.lock(0) {}
    for _ in 0..20 {
        assert!(!l.lock(1));
    }
    l.unlock(0);
    let mut steps = 0;
    while !l.lock(1) {
        steps += 1;
        assert!(steps < 3);
    }
    assert!(!l.lock(0));
}

#[test]
fn bakery_lone_thread_enters_on_its_seventh_step() {
    let mut l = BakeryLock::new(3);
    for _ in 0..6 {
        assert!(!l.lock(1));
    }
    assert!(l.lock(1));
    l.unlock(1);
}

#[test]
fn bakery_smaller_label_goes_first() {
    let mut l = BakeryLock::new(2);
    // thread 0 takes label 1 and enters
    while !l.lock(0) {}
    // thread 1 takes label 2 and waits
    for _ in 0..20 {
        assert!(!l.lock(1));
    }
    l.unlock(0);
    let mut steps = 0;
    while !l.lock(1) {
        steps += 1;
        assert!(steps < 5);
    }
}

#[test]
fn filter_lone_thread_climbs_both_levels() {
    let mut l = FilterLock::new(2);
    for _ in 0..5 {
        assert!(!l.lock(1));
    }
    assert!(l.lock(1));
    for _ in 0..20 {
        assert!(!l.lock(2));
    }
    l.unlock(1);
    let mut steps = 0;
    while !l.lock(2) {
        steps += 1;
        assert!(steps < 10);
    }
}

#[test]
fn tas_lock_admits_one_thread_at_a_time() {
    let mut l = TASLock::create();
    assert!(l.lock(0));
    for _ in 0..10 {
        assert!(!l.lock(1));
    }
    assert!(l.unlock(0));
    assert!(l.lock(1));
    assert!(!l.lock(7));
}

#[test]
fn backoff_lock_backs_off_after_losing_the_race() {
    let mut l = BackoffLock::create();
    assert!(!l.lock(1)); // reads the flag clear
    assert!(!l.lock(0)); // reads the flag clear
    assert!(l.lock(0)); // sets it first
    assert!(!l.lock(1)); // loses the race
    assert!(!l.lock(1)); // backs off
    assert!(!l.lock(1)); // reads the flag set
    assert!(l.unlock(0));
    assert!(!l.lock(1)); // reads the flag clear
    assert!(l.lock(1)); // sets it
}

#[test]
fn array_lock_serves_tickets_in_order() {
    let mut l = ArrayLock::create();
    assert!(l.lock(0) == false); // ticket 0
    assert!(l.lock(1) == false); // ticket 1
    assert!(l.lock(2) == false); // ticket 2
    assert!(l.lock(0)); // slot 0 is set
    assert!(!l.lock(2));
    assert!(!l.lock(1));
    assert!(!l.unlock(0)); // clears slot 0
    assert!(!l.lock(1));
    assert!(l.unlock(0)); // sets slot 1
    assert!(!l.lock(2));
    assert!(l.lock(1));
    assert!(!l.lock(2));
}

#[test]
fn array_lock_serves_max_threads_waiters_and_wraps_around() {
    let mut l = ArrayLock::create();
    for t in 0..MAX_THREADS {
        assert!(!l.lock(t)); // every thread draws a ticket, one per slot
    }
    assert_eq!(l.shared_memory().read(TAIL), MAX_THREADS);
    for round in 0..2 * MAX_THREADS {
        let holder = round % MAX_THREADS;
        for t in 0..MAX_THREADS {
            assert_eq!(l.lock(t), t == holder);
        }
        assert!(!l.unlock(holder));
        assert!(l.unlock(holder));
        assert!(!l.lock(holder)); // draws the next ticket, in the same slot again
    }
    assert_eq!(l.tickets_drawn(), 3 * MAX_THREADS);
}

#[test]
fn counting_run_keeps_an_increment_made_across_other_steps() {
    let mut lock: Lock<TASLock, usize> = Lock::new(0);
    let mut run = CountingRun::new(2, &lock);
    assert!(!run.step(&mut lock, 0)); // thread 0 takes the lock
    assert_eq!(run.phase_of(0), CountPhase::Reading);
    assert!(!run.step(&mut lock, 0)); // reads 0
    assert_eq!(run.phase_of(0), CountPhase::Writing(0));
    for _ in 0..3 {
        assert!(!run.step(&mut lock, 1)); // thread 1 cannot take the lock
        assert_eq!(run.phase_of(1), CountPhase::Locking);
    }
    assert!(!run.step(&mut lock, 0)); // writes 1
    assert_eq!(run.phase_of(0), CountPhase::Unlocking);
    assert!(run.step(&mut lock, 0)); // gives the lock back
    assert_eq!(run.phase_of(0), CountPhase::Locking);
    assert!(!run.step(&mut lock, 1)); // takes the lock
    assert!(!run.step(&mut lock, 1)); // reads the 1 that thread 0 wrote
    assert_eq!(run.phase_of(1), CountPhase::Writing(1));
    assert!(!run.step(&mut lock, 1));
    assert!(run.step(&mut lock, 1));
    let g = lock.lock(2).unwrap();
    assert_eq!(*lock.get(&g), 2);
}

#[test]
fn clh_lock_serves_the_queue_in_order() {
    let mut l = CLHLock::create();
    while !l.lock(0) {}
    assert!(!l.lock(2)); // allocates
    assert!(!l.lock(2)); // joins the queue
    assert!(!l.lock(1)); // allocates
    assert!(!l.lock(1)); // joins the queue behind thread 2
    for _ in 0..5 {
        assert!(!l.lock(1));
        assert!(!l.lock(2));
    }
    assert!(l.unlock(0));
    assert!(!l.lock(1));
    assert!(l.lock(2));
    assert!(l.unlock(2));
    assert!(l.lock(1));
}

#[test]
fn mcs_release_waits_for_the_successor_to_link_itself() {
    let mut l = MCSLock::create();
    assert!(!l.lock(0)); // allocates
    assert!(l.lock(0)); // finds the queue empty
    assert!(!l.lock(1)); // allocates
    assert!(!l.lock(1)); // joins the queue, not yet linked
    assert!(!l.unlock(0)); // no successor linked yet
    assert!(!l.unlock(0)); // the tail is not its own node
    assert!(!l.unlock(0)); // still no successor linked
    assert!(!l.lock(1)); // locks its node
    assert!(!l.lock(1)); // links itself
    assert!(!l.lock(1)); // spins
    assert!(!l.unlock(0)); // sees the successor
    assert!(!l.unlock(0)); // reads it
    assert!(l.unlock(0)); // unlocks it
    assert!(l.lock(1));
    assert!(!l.unlock(1)); // no successor
    assert!(l.unlock(1)); // clears the tail
}

/// The locking steps that thread `tid` takes, alone, until it holds `lock`.
fn solo_steps<L: RawLock>(lock: &mut L, tid: usize) -> usize {
    let mut steps = 1;
    while !lock.lock(tid) {
        steps += 1;
    }
    steps
}

#[test]
fn lone_threads_acquire_within_a_few_steps() {
    let mut tas = TASLock::create();
    let mut ttas = TTASLock::create();
    let mut backoff = BackoffLock::create();
    let mut array = ArrayLock::create();
    let mut clh = CLHLock::create();
    let mut mcs = MCSLock::create();
    let mut to = ToLock::create();
    for round in 0..3 {
        let tid = round % 2;
        assert_eq!(solo_steps(&mut tas, tid), 1);
        assert_eq!(solo_steps(&mut ttas, tid), 2);
        assert_eq!(solo_steps(&mut backoff, tid), 2);
        assert_eq!(solo_steps(&mut array, tid), 2);
        assert_eq!(solo_steps(&mut clh, tid), 3);
        assert_eq!(solo_steps(&mut mcs, tid), 2);
        // after a release the tail still names the unlocked node
        assert_eq!(solo_steps(&mut to, tid), if round == 0 { 2 } else { 3 });
        assert!(tas.unlock(tid));
        assert!(ttas.unlock(tid));
        assert!(backoff.unlock(tid));
        assert!(!array.unlock(tid));
        assert!(array.unlock(tid));
        assert!(clh.unlock(tid));
        assert!(!mcs.unlock(tid)); // no successor
        assert!(mcs.unlock(tid)); // clears the tail
        assert!(to.unlock(tid));
    }
}

#[test]
fn to_lock_lone_thread_hops_over_nodes_given_up() {
    let mut l = ToLock::create();
    assert_eq!(solo_steps(&mut l, 0), 2);
    for t in 1..3 {
        assert_eq!(l.try_lock(t, false), Ok(false)); // allocates
        assert_eq!(l.try_lock(t, false), Ok(false)); // queues up
        assert_eq!(l.try_lock(t, false), Ok(false)); // finds its predecessor locked
        assert_eq!(l.try_lock(t, true), Ok(false)); // its time is up
        assert_eq!(l.try_lock(t, true), Err(())); // records where it was waiting
    }
    assert!(l.unlock(0));
    // alone: allocate, queue up behind thread 2's node, find it given up,
    // hop to thread 0's node, find it unlocked
    assert_eq!(solo_steps(&mut l, 3), 5);
}

#[test]
fn to_lock_successor_skips_a_node_given_up() {
    let mut l = ToLock::create();
    assert_eq!(l.try_lock(0, false), Ok(false));
    assert_eq!(l.try_lock(0, false), Ok(true));
    assert_eq!(l.try_lock(1, false), Ok(false)); // allocates
    assert_eq!(l.try_lock(1, false), Ok(false)); // queues behind thread 0
    assert_eq!(l.try_lock(2, false), Ok(false)); // allocates
    assert_eq!(l.try_lock(2, false), Ok(false)); // queues behind thread 1
    assert_eq!(l.try_lock(1, true), Ok(false)); // thread 0's node is locked
    assert_eq!(l.try_lock(1, true), Ok(false)); // its time is up
    assert_eq!(l.try_lock(1, true), Err(())); // records thread 0's node and leaves
    assert_eq!(l.try_lock(2, false), Ok(false)); // thread 1's node is locked
    assert_eq!(l.try_lock(2, false), Ok(false)); // moves on to thread 0's node
    assert_eq!(l.try_lock(2, false), Ok(false)); // which is locked
    assert!(l.unlock(0));
    let mut steps = 0;
    while l.try_lock(2, false) != Ok(true) {
        steps += 1;
        assert!(steps < 3);
    }
    assert_eq!(l.try_lock(1, false), Ok(false));
    assert_eq!(l.try_lock(1, false), Ok(false));
    assert!(!l.lock(1));
    assert!(l.unlock(2));
    let mut steps = 0;
    while !l.lock(1) {
        steps += 1;
        assert!(steps < 3);
    }
}

#[test]
fn guarded_value_changes_only_through_the_guard() {
    let mut l: Lock<TASLock, String> = Lock::new(String::from("a"));
    let g = loop {
        if let Some(g) = l.lock(3) {
            break g;
        }
    };
    assert_eq!(l.get(&g), "a");
    l.set(&g, String::from("ab"));
    assert!(l.lock(4).is_none());
    assert_eq!(l.get(&g), "ab");
    assert!(l.unlock(g));
    let g4 = l.lock(4).unwrap();
    assert_eq!(l.get(&g4), "ab");
    assert_eq!(l.raw_lock().shared_memory().read(0), 1); // the flag is set
    assert!(l.unlock(g4));
    assert_eq!(l.raw_lock().shared_memory().read(0), 0);
}

#[test]
fn lock_is_taken_again_after_a_release() {
    let mut l: Lock<MCSLock, usize> = Lock::new(0);
    for round in 0..3 {
        let g = loop {
            if let Some(g) = l.lock(0) {
                break g;
            }
        };
        assert_eq!(*l.get(&g), round);
        l.set(&g, round + 1);
        let mut released = l.unlock(g);
        while !released {
            released = l.finish_unlock(0);
        }
    }
    let g = loop {
        if let Some(g) = l.lock(1) {
            break g;
        }
    };
    assert_eq!(*l.get(&g), 3);
}

#[test]
fn default_locks_are_free() {
    let mut tas: TASLock = Default::default();
    assert!(tas.lock(0));
    let mut array: ArrayLock = Default::default();
    assert!(!array.lock(5));
    assert!(array.lock(5));
    let mut mcs: MCSLock = Default::default();
    assert!(!mcs.lock(2));
    assert!(mcs.lock(2));
    let mut clh: CLHLock = Default::default();
    assert!(!clh.lock(1));
    assert!(!clh.lock(1));
    assert!(clh.lock(1));
    let mut to: ToLock = Default::default();
    assert!(!to.lock(1));
    assert!(to.lock(1));
    assert_eq!(tas.shared_memory().read(0), 1);
    assert_eq!(array.shared_memory().read(20), 1);
}
