//! Threads that add one to a counter guarded by a [`Lock`], each thread
//! taking the lock, reading the counter, writing one more and giving the
//! lock back, with the steps of all threads interleaved in any order.
//!
//! A thread may be stopped between its read and its write while the other
//! threads take steps; the contract of [`CountingRun::step`] shows that no
//! increment is ever lost: each step changes the counter by exactly the one
//! it writes.
use vstd::prelude::*;

use crate::lock::lock::{Lock, LockGuard, RawLock};

verus! {

/// Where a thread of a [`CountingRun`] stands.
#[derive(Clone, Copy, Debug, PartialEq, Eq, Structural)]
pub enum CountPhase {
    /// Taking steps towards holding the lock.
    Locking,
    /// Holding the lock, about to read the counter.
    Reading,
    /// Holding the lock, having read `.0`, about to write one more.
    Writing(usize),
    /// Holding the lock, about to give it back.
    Unlocking,
    /// Finishing the release of the lock.
    Releasing,
}

impl CountPhase {
    /// A thread in this phase holds the lock.
    pub open spec fn holding(self) -> bool {
        self is Reading || self is Writing || self is Unlocking
    }
}

/// The threads `0 .. threads()` of a counting run, each with its phase and,
/// while it holds the lock, the guard that lets it reach the counter.
pub struct CountingRun {
    phases: Vec<CountPhase>,
    guards: Vec<Option<LockGuard>>,
}

impl CountingRun {
    /// The number of threads of the run.
    pub closed spec fn threads(&self) -> nat {
        self.phases@.len()
    }

    /// The phase of thread `t`.
    pub closed spec fn phase(&self, t: int) -> CountPhase {
        self.phases@[t]
    }

    /// The phase of thread `t`.
    pub fn phase_of(&self, t: usize) -> (p: CountPhase)
        requires
            t < self.threads(),
        ensures
            p == self.phase(t as int),
    {
        self.phases[t]
    }

    /// The run and the lock agree: the threads of the run that hold the lock
    /// or release it are those whose phases say so, a thread that has read
    /// the counter has read its present value, and no thread outside the
    /// run uses the lock.
    pub closed spec fn agrees<L: RawLock>(&self, lock: &Lock<L, usize>) -> bool {
        &&& self.guards@.len() == self.phases@.len()
        &&& lock.raw().wf()
        &&& forall|t: int|
            0 <= t < self.phases@.len() ==> {
                &&& (#[trigger] self.phases@[t]).holding() == lock.raw().holds(t)
                &&& (self.phases@[t] is Releasing) == lock.raw().releasing(t)
                &&& (self.guards@[t] is Some) == self.phases@[t].holding()
                &&& self.guards@[t] matches Some(g) ==> g@ == t
                &&& self.phases@[t] matches CountPhase::Writing(v) ==> v == lock.value()
            }
        &&& forall|t: int|
            !(0 <= t < self.phases@.len()) ==> !lock.raw().holds(t) && !lock.raw().releasing(t)
    }

    /// A run of `n` threads, all about to take the lock, on a lock that no
    /// thread holds or releases.
    pub fn new<L: RawLock>(n: usize, lock: &Lock<L, usize>) -> (run: CountingRun)
        requires
            lock.raw().wf(),
            forall|t: int| !lock.raw().holds(t) && !lock.raw().releasing(t),
        ensures
            run.agrees(lock),
            run.threads() == n,
            forall|t: int| 0 <= t < n ==> run.phase(t) == CountPhase::Locking,
    {
        let mut phases: Vec<CountPhase> = Vec::new();
        let mut guards: Vec<Option<LockGuard>> = Vec::new();
        while phases.len() < n
            invariant
                phases.len() <= n,
                guards.len() == phases.len(),
                forall|t: int| 0 <= t < phases.len() ==> phases@[t] == CountPhase::Locking,
                forall|t: int| 0 <= t < guards.len() ==> guards@[t] is None,
            decreases n - phases.len(),
        {
            phases.push(CountPhase::Locking);
            guards.push(None);
        }
        CountingRun { phases, guards }
    }

    /// One step of thread `t`: a step towards holding the lock, the read of
    /// the counter, the write of one more, or a step of giving the lock
    /// back.  Returns whether thread `t` has just finished an increment,
    /// lock given back.
    pub fn step<L: RawLock>(&mut self, lock: &mut Lock<L, usize>, t: usize) -> (finished: bool)
        requires
            old(self).agrees(old(lock)),
            t < old(self).threads(),
            old(self).phase(t as int) is Locking ==> old(lock).raw().admits(t as int),
            old(self).phase(t as int) matches CountPhase::Writing(v) ==> v < usize::MAX,
        ensures
            final(self).agrees(final(lock)),
            final(self).threads() == old(self).threads(),
            final(lock).value() == old(lock).value() + if old(self).phase(t as int) is Writing {
                1int
            } else {
                0int
            },
            forall|u: int|
                0 <= u < old(self).threads() && u != t ==> final(self).phase(u) == old(self).phase(
                    u,
                ),
            match old(self).phase(t as int) {
                CountPhase::Locking => final(self).phase(t as int) == if final(lock).raw().holds(
                    t as int,
                ) {
                    CountPhase::Reading
                } else {
                    CountPhase::Locking
                },
                CountPhase::Reading => final(self).phase(t as int) == CountPhase::Writing(
                    old(lock).value(),
                ),
                CountPhase::Writing(_) => final(self).phase(t as int) == CountPhase::Unlocking,
                _ => final(self).phase(t as int) == if finished {
                    CountPhase::Locking
                } else {
                    CountPhase::Releasing
                },
            },
            finished ==> (old(self).phase(t as int) is Unlocking || old(self).phase(
                t as int,
            ) is Releasing),
            (old(self).phase(t as int) is Unlocking || old(self).phase(t as int) is Releasing) ==> (
            finished <==> !final(lock).raw().releasing(t as int)),
            finished ==> final(lock).raw().idle(t as int),
            forall|u: int| u != t ==> final(lock).raw().idle(u) == old(lock).raw().idle(u),
    {
        let ghost s0 = *self;
        let ghost l0 = *lock;
        let phase = self.phases[t];
        let mut finished = false;
        match phase {
            CountPhase::Locking => {
                if let Some(g) = lock.lock(t) {
                    self.phases.set(t, CountPhase::Reading);
                    self.guards.set(t, Some(g));
                }
            },
            CountPhase::Reading => {
                let v = match &self.guards[t] {
                    Some(g) => *lock.get(g),
                    None => 0,
                };
                self.phases.set(t, CountPhase::Writing(v));
            },
            CountPhase::Writing(v) => {
                proof {
                    assert(s0.phases@[t as int].holding());
                    assert forall|u: int|
                        0 <= u < s0.phases@.len() && s0.phases@[u].holding() implies u == t by {
                        l0.raw().lemma_mutual_exclusion(u, t as int);
                    }
                }
                match &self.guards[t] {
                    Some(g) => lock.set(g, v + 1),
                    None => {},
                }
                self.phases.set(t, CountPhase::Unlocking);
            },
            CountPhase::Unlocking => {
                let mut g = None;
                std::mem::swap(&mut g, &mut self.guards[t]);
                if let Some(g) = g {
                    finished = lock.unlock(g);
                }
                self.phases.set(
                    t,
                    if finished {
                        CountPhase::Locking
                    } else {
                        CountPhase::Releasing
                    },
                );
            },
            CountPhase::Releasing => {
                finished = lock.finish_unlock(t);
                if finished {
                    self.phases.set(t, CountPhase::Locking);
                }
            },
        }
        finished
    }
}

} // verus!
