use std::time::Instant;

use locks::lock::array_lock::ArrayLock;
use locks::lock::backoff_lock::BackoffLock;
use locks::lock::clh_lock::CLHLock;
use locks::lock::counter::CountingRun;
use locks::lock::lock::{Lock, LockGuard, RawLock};
use locks::lock::mcs_lock::MCSLock;
use locks::lock::tas_lock::TASLock;
use locks::lock::to_lock::ToLock;
use locks::lock::ttas_lock::TTASLock;

/// How many steps thread `t` takes when the scheduler picks it in round
/// `round`: between 1 and 5, so that threads stop at every point of their
/// protocols and the steps of different threads interleave.
fn budget(round: usize, t: usize) -> usize {
    1 + (round * 7 + t * 3) % 5
}

/// Runs `lock` to completion for thread `tid`, which no other thread contends.
fn acquire<L: RawLock>(lock: &mut Lock<L, usize>, tid: usize) -> LockGuard {
    loop {
        if let Some(g) = lock.lock(tid) {
            return g;
        }
    }
}

/// `n` threads each add 1 to the guarded counter `step` times, reading the
/// counter and writing it back in separate steps; the scheduler gives the
/// threads turns round robin, a few steps each, so that a thread is often
/// stopped inside its critical section while the others take steps.
fn run_counter<L: RawLock>(lock: &mut Lock<L, usize>, n: usize, step: usize) {
    let mut run = CountingRun::new(n, lock);
    let mut left = vec![step; n];
    let mut busy = n;
    let mut round = 0;
    while busy > 0 {
        round += 1;
        for t in 0..n {
            for _ in 0..budget(round, t) {
                if left[t] == 0 {
                    break;
                }
                if run.step(lock, t) {
                    left[t] -= 1;
                    if left[t] == 0 {
                        busy -= 1;
                    }
                }
            }
        }
    }
}

fn test_lock<L: RawLock>(lock_name: &str) {
    let n = 10;
    let step = 1000000;
    let mut lock: Lock<L, usize> = Lock::new(0);
    let start = Instant::now();
    run_counter(&mut lock, n, step);
    let g = acquire(&mut lock, n);
    assert_eq!(n * step, *lock.get(&g));
    let duration = start.elapsed();
    println!("{} Time Elapsed: {:?}", lock_name, duration);
}

#[test]
fn test_tas_lock() {
    test_lock::<TASLock>("TASLock");
}

#[test]
fn test_ttas_lock() {
    test_lock::<TTASLock>("TTASLock");
}

#[test]
pub fn test_backoff_lock() {
    test_lock::<BackoffLock>("BackoffLock");
}

#[test]
fn test_array_lock() {
    test_lock::<ArrayLock>("ArrayLock");
}

#[test]
fn test_clh_lock() {
    test_lock::<CLHLock>("CLHLock");
}

#[test]
fn test_mcs_lock() {
    test_lock::<MCSLock>("MCSLock");
}

#[test]
fn test_to_lock() {
    test_lock::<ToLock>("ToLock");
}

/// Like `test_lock`, with a thread that gives up an attempt after a few
/// steps of waiting and starts over.
fn test_try_lock(lock_name: &str) {
    let n = 10;
    let step = 1000000;
    // thread 0 gives up after a few steps of waiting; the others never do
    let patience = |t: usize| if t == 0 { 4 } else { usize::MAX };
    let mut lock = ToLock::create();
    let mut value: usize = 0;
    let mut left = vec![step; n];
    let mut waited = vec![0usize; n];
    let mut gave_up = 0usize;
    let mut busy = n;
    let mut round = 0;
    let start = Instant::now();
    while busy > 0 {
        round += 1;
        for t in 0..n {
            for _ in 0..budget(round, t) {
                if left[t] == 0 {
                    break;
                }
                match lock.try_lock(t, waited[t] >= patience(t)) {
                    Ok(true) => {
                        value += 1;
                        assert!(lock.unlock(t));
                        waited[t] = 0;
                        left[t] -= 1;
                        if left[t] == 0 {
                            busy -= 1;
                        }
                    },
                    Ok(false) => waited[t] += 1,
                    Err(()) => {
                        gave_up += 1;
                        waited[t] = 0;
                    },
                }
            }
        }
    }
    assert_eq!(n * step, value);
    assert!(gave_up > 0);
    let duration = start.elapsed();
    println!("{} Time Elapsed: {:?}", lock_name, duration);
}

#[test]
fn test_to_try_lock() {
    test_try_lock("ToTryLock");
}
