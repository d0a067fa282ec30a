use std::time::Instant;

use locks::lock::bakery_lock::BakeryLock;
use locks::lock::filter_lock::FilterLock;
use locks::lock::peterson_lock::PetersonLock;

/// The locks whose threads are named by numbers fixed in advance.
trait NumberedLock {
    fn step_lock(&mut self, id: usize) -> bool;
    fn release(&mut self, id: usize);
}

impl NumberedLock for PetersonLock {
    fn step_lock(&mut self, id: usize) -> bool {
        self.lock(id)
    }
    fn release(&mut self, id: usize) {
        self.unlock(id)
    }
}

impl NumberedLock for FilterLock {
    fn step_lock(&mut self, id: usize) -> bool {
        self.lock(id)
    }
    fn release(&mut self, id: usize) {
        self.unlock(id)
    }
}

impl NumberedLock for BakeryLock {
    fn step_lock(&mut self, id: usize) -> bool {
        self.lock(id)
    }
    fn release(&mut self, id: usize) {
        self.unlock(id)
    }
}

/// How many locking steps thread `t` takes in its turn `round` at most:
/// between `floor + 1` and `floor + spread`, so that threads stop at many
/// points of their protocols and the steps of different threads interleave.
fn budget(round: usize, t: usize, floor: usize, spread: usize) -> usize {
    floor + 1 + (round * 7 + t * 3) % spread
}

/// The threads `ids` each add 1 to a shared value `step` times, while they
/// hold the lock; returns the value.  In its turn a thread takes locking
/// steps until it holds the lock or has used up its budget.  Once it holds
/// the lock it reads the value, then other threads take locking steps, and
/// only then does it write the value read plus 1 and release the lock
/// (in every `intrude_every`-th turn of a thread other threads step in).  A
/// thread that gets the lock while another is inside fails the test, and an
/// increment lost to a write in between shows in the value.
fn run_counter<L: NumberedLock>(
    lock: &mut L,
    ids: &[usize],
    step: usize,
    floor: usize,
    spread: usize,
    intrude_every: usize,
) -> usize {
    let n = ids.len();
    let mut value: usize = 0;
    let mut inside: Option<usize> = None;
    let mut left = vec![step; n];
    let mut busy = n;
    let mut round = 0;
    let mut next_intruder = 0;
    while busy > 0 {
        round += 1;
        for t in 0..n {
            if left[t] == 0 {
                continue;
            }
            let mut got = false;
            for _ in 0..budget(round, t, floor, spread) {
                if lock.step_lock(ids[t]) {
                    got = true;
                    break;
                }
            }
            if !got {
                continue;
            }
            assert!(inside.is_none());
            inside = Some(ids[t]);
            let read = value;
            // while `t` is inside, a few other threads that still have work
            // take a locking step each; none of them may get the lock
            let intruders = if (round + t) % intrude_every == 0 {
                1 + round % 3
            } else {
                0
            };
            for _ in 0..intruders {
                next_intruder = (next_intruder + 1) % n;
                let u = next_intruder;
                if u != t && left[u] > 0 && lock.step_lock(ids[u]) {
                    assert!(inside.is_none(), "threads {:?} and {} both inside", inside, ids[u]);
                }
            }
            value = read + 1;
            inside = None;
            lock.release(ids[t]);
            left[t] -= 1;
            if left[t] == 0 {
                busy -= 1;
            }
        }
    }
    value
}

#[test]
fn test_peterson() {
    let mut peterson_lock = PetersonLock::new();
    const N: usize = 1000000;
    let value = run_counter(&mut peterson_lock, &[0, 1], N, 0, 5, 1);
    assert_eq!(value, 2 * N);
}

#[test]
fn bakery_lock_excludes_under_fine_interleaving() {
    let n = 10;
    let step = 20000;
    let mut bakery_lock = BakeryLock::new(n);
    let ids: Vec<usize> = (0..n).collect();
    assert_eq!(run_counter(&mut bakery_lock, &ids, step, 0, 5, 1), n * step);
}

#[test]
fn filter_lock_excludes_under_fine_interleaving() {
    let n = 10;
    let step = 5000;
    let mut filter_lock = FilterLock::new(n);
    let ids: Vec<usize> = (1..=n).collect();
    assert_eq!(run_counter(&mut filter_lock, &ids, step, 0, 5, 1), n * step);
}

#[test]
fn test_bakery_lock() {
    let n = 10;
    let step = 1000000;
    let mut bakery_lock = BakeryLock::new(n);
    let start = Instant::now();
    let ids: Vec<usize> = (0..n).collect();
    let value = run_counter(&mut bakery_lock, &ids, step, 4 * n + 1, 8, 8);
    assert_eq!(value, n * step);
    let duration = start.elapsed();
    println!("BakeryLock Time elapsed: {:?}", duration);
}

#[test]
fn test_filter_lock() {
    let n = 10;
    let step = 1000000;
    let mut filter_lock = FilterLock::new(n);
    let start = Instant::now();
    let ids: Vec<usize> = (1..=n).collect();
    let value = run_counter(&mut filter_lock, &ids, step, n * (2 * n + 3), 8, 64);
    assert_eq!(value, n * step);
    let duration = start.elapsed();
    println!("FilterLock Time elapsed: {:?}", duration);
}

