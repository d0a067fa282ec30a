//! The test-and-test-and-set lock: a thread reads the flag until it is clear,
//! then sets it with one atomic or, and holds the lock when it was still clear.
use vstd::prelude::*;

use crate::lock::lock::RawLock;
use crate::lock::memory::{lemma_or_one, op_effect, op_result, MemOp, Memory};

verus! {

/// The cell that holds the lock's flag (1 while the lock is taken).
pub const FLAG: usize = 0;

/// Where a thread stands in the protocol of [`TTASLock`].
#[derive(Clone, Copy, Debug, PartialEq, Eq, Structural)]
pub enum TtasPhase {
    /// Not interested in the lock.
    Idle,
    /// Reading the flag until it is clear.
    Test,
    /// Setting the flag, which was clear when last read.
    Grab,
    /// In the critical section.
    Critical,
    /// About to clear the flag.
    Releasing,
}

impl TtasPhase {
    /// The phase in which a thread in this phase takes its next locking step:
    /// an idle thread starts by reading the flag.
    pub open spec fn spec_lock_entry(self) -> TtasPhase {
        if self == TtasPhase::Idle {
            TtasPhase::Test
        } else {
            self
        }
    }

    /// The phase in which a thread in this phase takes its next locking step.
    pub fn lock_entry(&self) -> (p: TtasPhase)
        ensures
            p == self.spec_lock_entry(),
    {
        if *self == TtasPhase::Idle {
            TtasPhase::Test
        } else {
            *self
        }
    }

    /// The phase in which a thread in this phase takes its next releasing
    /// step: a thread in its critical section starts by clearing the flag.
    pub open spec fn spec_unlock_entry(self) -> TtasPhase {
        match self {
            TtasPhase::Critical => TtasPhase::Releasing,
            _ => self,
        }
    }

    /// The phase in which a thread in this phase takes its next releasing step.
    pub fn unlock_entry(&self) -> (p: TtasPhase)
        ensures
            p == self.spec_unlock_entry(),
    {
        match *self {
            TtasPhase::Critical => TtasPhase::Releasing,
            _ => *self,
        }
    }

    /// The atomic operation that a thread in this phase performs next.
    pub open spec fn spec_op(self) -> MemOp {
        match self {
            TtasPhase::Test => MemOp::Load(FLAG),
            TtasPhase::Grab => MemOp::FetchOr(FLAG, 1),
            TtasPhase::Releasing => MemOp::Store(FLAG, 0),
            _ => MemOp::Snooze,
        }
    }

    /// The phase after that operation yielded `r`.
    pub open spec fn spec_after(self, r: usize) -> TtasPhase {
        match self {
            TtasPhase::Test => if r == 0 {
                TtasPhase::Grab
            } else {
                TtasPhase::Test
            },
            TtasPhase::Grab => if r == 0 {
                TtasPhase::Critical
            } else {
                TtasPhase::Test
            },
            TtasPhase::Releasing => TtasPhase::Idle,
            _ => self,
        }
    }

    /// The atomic operation that a thread in this phase performs next.
    pub fn op(&self) -> (o: MemOp)
        ensures
            o == self.spec_op(),
    {
        match self {
            TtasPhase::Test => MemOp::Load(FLAG),
            TtasPhase::Grab => MemOp::FetchOr(FLAG, 1),
            TtasPhase::Releasing => MemOp::Store(FLAG, 0),
            _ => MemOp::Snooze,
        }
    }

    /// The phase after the operation of this phase yielded `r`.
    pub fn after(&self, r: usize) -> (p: TtasPhase)
        ensures
            p == self.spec_after(r),
    {
        match self {
            TtasPhase::Test => if r == 0 {
                TtasPhase::Grab
            } else {
                TtasPhase::Test
            },
            TtasPhase::Grab => if r == 0 {
                TtasPhase::Critical
            } else {
                TtasPhase::Test
            },
            TtasPhase::Releasing => TtasPhase::Idle,
            _ => *self,
        }
    }
}

/// A test-and-test-and-set spin lock over one flag word, with the protocol
/// state of each thread that has used it.
pub struct TTASLock {
    mem: Memory,
    threads: Vec<TtasPhase>,
}

impl TTASLock {
    /// The shared memory of the lock.
    pub fn shared_memory(&self) -> (m: &Memory)
        ensures
            m@ == self.memory(),
    {
        &self.mem
    }

    /// The shared memory: the flag.
    pub closed spec fn memory(&self) -> Seq<usize> {
        self.mem@
    }

    /// The phase of thread `t`; a thread that never used the lock is idle.
    pub closed spec fn phase(&self, t: int) -> TtasPhase {
        if 0 <= t < self.threads@.len() {
            self.threads@[t]
        } else {
            TtasPhase::Idle
        }
    }

    /// The phase in which thread `tid` takes its next locking step.
    pub open spec fn lock_phase(&self, tid: int) -> TtasPhase {
        self.phase(tid).spec_lock_entry()
    }

    /// Makes room for the protocol state of thread `tid`.
    fn register(&mut self, tid: usize)
        requires
            old(self).wf(),
        ensures
            final(self).wf(),
            tid < final(self).threads@.len(),
            final(self).mem@ == old(self).mem@,
            forall|t: int| final(self).phase(t) == old(self).phase(t),
    {
        while self.threads.len() <= tid
            invariant
                self.wf(),
                self.mem@ == old(self).mem@,
                forall|t: int| self.phase(t) == old(self).phase(t),
            decreases tid + 1 - self.threads.len(),
        {
            let ghost before = *self;
            self.threads.push(TtasPhase::Idle);
            assert forall|t: int| self.phase(t) == before.phase(t) by {
                if 0 <= t < before.threads@.len() {
                    assert(self.threads@[t] == before.threads@[t]);
                }
            }
            proof {
                if self.mem@[FLAG as int] == 1 {
                    let w = choose|t: int|
                        0 <= t < before.threads@.len() && before.threads@[t] == TtasPhase::Critical;
                    assert(self.threads@[w] == TtasPhase::Critical);
                }
            }
        }
    }
}

impl RawLock for TTASLock {
    closed spec fn wf(&self) -> bool {
        let th = self.threads@;
        &&& self.mem@.len() == 1
        &&& self.mem@[FLAG as int] <= 1
        &&& forall|t: int| 0 <= t < th.len() ==> th[t] != TtasPhase::Releasing
        &&& forall|t: int|
            0 <= t < th.len() && th[t] == TtasPhase::Critical ==> self.mem@[FLAG as int] == 1
        &&& self.mem@[FLAG as int] == 1 ==> exists|t: int|
            0 <= t < th.len() && th[t] == TtasPhase::Critical
        &&& forall|t: int, u: int|
            0 <= t < th.len() && 0 <= u < th.len() && th[t] == TtasPhase::Critical && th[u]
                == TtasPhase::Critical ==> t == u
    }

    open spec fn holds(&self, tid: int) -> bool {
        self.phase(tid) == TtasPhase::Critical
    }

    open spec fn releasing(&self, tid: int) -> bool {
        self.phase(tid) == TtasPhase::Releasing
    }

    open spec fn admits(&self, tid: int) -> bool {
        true
    }

    open spec fn idle(&self, tid: int) -> bool {
        self.phase(tid) == TtasPhase::Idle
    }

    open spec fn release_steps(&self, tid: int) -> nat {
        0
    }

    open spec fn solo_steps(&self, tid: int) -> nat {
        match self.phase(tid) {
            TtasPhase::Critical => 0,
            TtasPhase::Grab => 1,
            _ => 2,
        }
    }

    fn create() -> (l: Self)
        ensures
            l.memory() == seq![0usize],
            forall|t: int| l.phase(t) == TtasPhase::Idle,
    {
        let l = TTASLock { mem: Memory::new(1), threads: Vec::new() };
        assert(l.memory() =~= seq![0usize]);
        l
    }

    fn lock(&mut self, tid: usize) -> (acquired: bool)
        ensures
            !old(self).holds(tid as int) ==> ({
                let p = old(self).lock_phase(tid as int);
                &&& final(self).memory() == op_effect(old(self).memory(), p.spec_op())
                &&& final(self).phase(tid as int) == p.spec_after(
                    op_result(old(self).memory(), p.spec_op()),
                )
            }),
            forall|t: int| t != tid ==> final(self).phase(t) == old(self).phase(t),
    {
        if tid < self.threads.len() && self.threads[tid] == TtasPhase::Critical {
            return true;
        }
        self.register(tid);
        let ghost reg = *self;
        let p = self.threads[tid].lock_entry();
        let op = p.op();
        let r = self.mem.apply(op);
        let q = p.after(r);
        proof {
            lemma_or_one(old(self).mem@[FLAG as int]);
        }
        let ghost mid = *self;
        self.threads.set(tid, q);
        assert forall|t: int| t != tid implies self.phase(t) == mid.phase(t) by {
            if 0 <= t < self.threads@.len() {
                assert(self.threads@[t] == mid.threads@[t]);
            }
        }
        assert(self.phase(tid as int) == q);
        proof {
            if reg.mem@[FLAG as int] == 1 {
                let w = choose|t: int|
                    0 <= t < reg.threads@.len() && reg.threads@[t] == TtasPhase::Critical;
                assert(reg.phase(w) == TtasPhase::Critical);
                assert(w != tid);
                assert(self.threads@[w] == TtasPhase::Critical);
                assert(old(self).phase(w) == TtasPhase::Critical);
                assert(!old(self).idle(w));
            } else if q == TtasPhase::Critical {
                assert(self.threads@[tid as int] == TtasPhase::Critical);
            }
            if forall|u: int| u != tid ==> old(self).idle(u) {
            }
        }
        q == TtasPhase::Critical
    }

    fn unlock(&mut self, tid: usize) -> (released: bool)
        ensures
            final(self).memory() == old(self).memory().update(FLAG as int, 0),
            final(self).phase(tid as int) == TtasPhase::Idle,
            forall|t: int| t != tid ==> final(self).phase(t) == old(self).phase(t),
    {
        let p = self.threads[tid].unlock_entry();
        let op = p.op();
        self.mem.apply(op);
        let q = p.after(0);
        let ghost mid = *self;
        self.threads.set(tid, q);
        assert forall|t: int| t != tid implies self.phase(t) == mid.phase(t) by {
            if 0 <= t < self.threads@.len() {
                assert(self.threads@[t] == mid.threads@[t]);
            }
        }
        assert(self.phase(tid as int) == q);
        true
    }

    proof fn lemma_mutual_exclusion(&self, i: int, j: int) {
    }

    proof fn lemma_idle(&self, tid: int) {
    }
}

impl Default for TTASLock {
    /// A free lock, as [`RawLock::create`] makes it.
    fn default() -> (l: Self)
        ensures
            l.wf(),
            forall|t: int| !l.holds(t) && !l.releasing(t),
            forall|t: int| l.idle(t),
    {
        Self::create()
    }
}

} // verus!
