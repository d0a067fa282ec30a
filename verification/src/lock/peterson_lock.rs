//! Peterson's lock for two threads, numbered 0 and 1: a thread raises its
//! flag, names itself the victim, and waits while the other thread's flag is
//! up and it is still the victim.
use vstd::prelude::*;

use crate::lock::memory::{op_effect, op_ok, op_result, MemOp, Memory};

verus! {

/// The cell that names the victim.
pub const VICTIM: usize = 2;

/// Where a thread stands in the protocol of [`PetersonLock`].
#[derive(Clone, Copy, Debug, PartialEq, Eq, Structural)]
pub enum PetersonPhase {
    /// Not interested in the lock.
    Idle,
    /// About to raise its flag.
    Raise,
    /// About to name itself the victim.
    Yield,
    /// Reading the other thread's flag.
    ReadFlag,
    /// Reading the victim.
    ReadVictim,
    /// In the critical section.
    Critical,
    /// About to lower its flag.
    Lower,
}

impl PetersonPhase {
    /// The phase in which a thread in this phase takes its next locking step:
    /// an idle thread starts by raising its flag.
    pub open spec fn spec_lock_entry(self) -> PetersonPhase {
        if self == PetersonPhase::Idle {
            PetersonPhase::Raise
        } else {
            self
        }
    }

    /// The phase in which a thread in this phase takes its next locking step.
    pub fn lock_entry(&self) -> (p: PetersonPhase)
        ensures
            p == self.spec_lock_entry(),
    {
        if *self == PetersonPhase::Idle {
            PetersonPhase::Raise
        } else {
            *self
        }
    }

    /// The phase in which a thread in this phase takes its next releasing
    /// step: a thread in its critical section starts by lowering its flag.
    pub open spec fn spec_unlock_entry(self) -> PetersonPhase {
        match self {
            PetersonPhase::Critical => PetersonPhase::Lower,
            _ => self,
        }
    }

    /// The phase in which a thread in this phase takes its next releasing step.
    pub fn unlock_entry(&self) -> (p: PetersonPhase)
        ensures
            p == self.spec_unlock_entry(),
    {
        match *self {
            PetersonPhase::Critical => PetersonPhase::Lower,
            _ => *self,
        }
    }

    /// The atomic operation that thread `me` performs next in this phase.
    pub open spec fn spec_op(self, me: usize) -> MemOp {
        match self {
            PetersonPhase::Raise => MemOp::Store(me, 1),
            PetersonPhase::Yield => MemOp::Store(VICTIM, me),
            PetersonPhase::ReadFlag => MemOp::Load((1 - me) as usize),
            PetersonPhase::ReadVictim => MemOp::Load(VICTIM),
            PetersonPhase::Lower => MemOp::Store(me, 0),
            _ => MemOp::Snooze,
        }
    }

    /// The phase of thread `me` after its operation yielded `r`.
    pub open spec fn spec_after(self, r: usize, me: usize) -> PetersonPhase {
        match self {
            PetersonPhase::Raise => PetersonPhase::Yield,
            PetersonPhase::Yield => PetersonPhase::ReadFlag,
            PetersonPhase::ReadFlag => if r == 0 {
                PetersonPhase::Critical
            } else {
                PetersonPhase::ReadVictim
            },
            PetersonPhase::ReadVictim => if r == me {
                PetersonPhase::ReadFlag
            } else {
                PetersonPhase::Critical
            },
            PetersonPhase::Lower => PetersonPhase::Idle,
            _ => self,
        }
    }

    /// The atomic operation that thread `me` performs next in this phase.
    pub fn op(&self, me: usize) -> (o: MemOp)
        requires
            me <= 1,
        ensures
            o == self.spec_op(me),
    {
        match self {
            PetersonPhase::Raise => MemOp::Store(me, 1),
            PetersonPhase::Yield => MemOp::Store(VICTIM, me),
            PetersonPhase::ReadFlag => MemOp::Load(1 - me),
            PetersonPhase::ReadVictim => MemOp::Load(VICTIM),
            PetersonPhase::Lower => MemOp::Store(me, 0),
            _ => MemOp::Snooze,
        }
    }

    /// The phase of thread `me` after the operation of this phase yielded `r`.
    pub fn after(&self, r: usize, me: usize) -> (p: PetersonPhase)
        ensures
            p == self.spec_after(r, me),
    {
        match self {
            PetersonPhase::Raise => PetersonPhase::Yield,
            PetersonPhase::Yield => PetersonPhase::ReadFlag,
            PetersonPhase::ReadFlag => if r == 0 {
                PetersonPhase::Critical
            } else {
                PetersonPhase::ReadVictim
            },
            PetersonPhase::ReadVictim => if r == me {
                PetersonPhase::ReadFlag
            } else {
                PetersonPhase::Critical
            },
            PetersonPhase::Lower => PetersonPhase::Idle,
            _ => *self,
        }
    }
}

/// The state of a Peterson lock: two flags, the victim, and both threads' phases.
pub struct PetersonState {
    /// The flags of threads 0 and 1, then the victim.
    pub mem: Seq<usize>,
    /// The phase of each thread.
    pub ph: Seq<PetersonPhase>,
}

impl PetersonState {
    /// The phase in which thread `me` takes its next locking step.
    pub open spec fn lock_phase(self, me: int) -> PetersonPhase {
        self.ph[me].spec_lock_entry()
    }

    /// The state after thread `me` takes one step in phase `p`.
    pub open spec fn step_in(self, me: int, p: PetersonPhase) -> PetersonState {
        let op = p.spec_op(me as usize);
        PetersonState {
            mem: op_effect(self.mem, op),
            ph: self.ph.update(me, p.spec_after(op_result(self.mem, op), me as usize)),
        }
    }

    /// The state after one locking step of thread `me`; a thread in its
    /// critical section takes none.
    pub open spec fn lock_step(self, me: int) -> PetersonState {
        if self.ph[me] == PetersonPhase::Critical {
            self
        } else {
            self.step_in(me, self.lock_phase(me))
        }
    }

    /// The state after the releasing step of thread `me`.
    pub open spec fn unlock_step(self, me: int) -> PetersonState {
        self.step_in(me, self.ph[me].spec_unlock_entry())
    }

    /// Thread `a` is past the point where it named itself the victim.
    pub open spec fn contending(self, a: int) -> bool {
        self.ph[a] == PetersonPhase::ReadFlag || self.ph[a] == PetersonPhase::ReadVictim
            || self.ph[a] == PetersonPhase::Critical
    }

    /// The invariant of Peterson's lock.
    pub open spec fn inv(self) -> bool {
        &&& self.mem.len() == 3
        &&& self.ph.len() == 2
        &&& self.mem[VICTIM as int] <= 1
        &&& forall|a: int|
            0 <= a < 2 ==> #[trigger] self.mem[a] == (if self.ph[a] == PetersonPhase::Idle
                || self.ph[a] == PetersonPhase::Raise {
                0usize
            } else {
                1usize
            })
        &&& forall|a: int|
            0 <= a < 2 && #[trigger] self.ph[a] == PetersonPhase::Critical && self.contending(1 - a)
                ==> self.mem[VICTIM as int] == 1 - a
    }
}

/// The steps that a thread may take: a locking step, or the releasing step
/// from the critical section.
pub open spec fn valid_step(s: PetersonState, me: int, p: PetersonPhase) -> bool {
    ||| p == s.lock_phase(me) && s.ph[me] != PetersonPhase::Critical
    ||| p == PetersonPhase::Lower && s.ph[me] == PetersonPhase::Critical
}

/// Every step that a thread may take keeps the invariant.
pub proof fn lemma_step_keeps_inv(s: PetersonState, me: int, p: PetersonPhase)
    requires
        s.inv(),
        0 <= me < 2,
        valid_step(s, me, p),
    ensures
        s.step_in(me, p).inv(),
        op_ok(s.mem, p.spec_op(me as usize)),
{
    let s2 = s.step_in(me, p);
    let other = 1 - me;
    assert(s.mem[me] == (if s.ph[me] == PetersonPhase::Idle || s.ph[me] == PetersonPhase::Raise {
        0usize
    } else {
        1usize
    }));
    assert(s.mem[other] == (if s.ph[other] == PetersonPhase::Idle || s.ph[other]
        == PetersonPhase::Raise {
        0usize
    } else {
        1usize
    }));
    assert(s2.ph[other] == s.ph[other]);
    assert(s2.mem[other] == s.mem[other]);
    if s.ph[other] == PetersonPhase::Critical {
        assert(s.ph[other] == PetersonPhase::Critical);
    }
    assert forall|a: int|
        0 <= a < 2 && #[trigger] s2.ph[a] == PetersonPhase::Critical && s2.contending(1 - a)
            implies s2.mem[VICTIM as int] == 1 - a by {
        if a == other {
            assert(s.ph[other] == PetersonPhase::Critical);
        }
    }
}

/// Mutual exclusion: the two threads are never both in the critical section.
pub proof fn lemma_peterson_mutual_exclusion(s: PetersonState)
    requires
        s.inv(),
    ensures
        !(s.ph[0] == PetersonPhase::Critical && s.ph[1] == PetersonPhase::Critical),
{
    if s.ph[0] == PetersonPhase::Critical && s.ph[1] == PetersonPhase::Critical {
        assert(s.ph[0] == PetersonPhase::Critical);
        assert(s.ph[1] == PetersonPhase::Critical);
    }
}

/// Peterson's lock for the threads numbered 0 and 1.
pub struct PetersonLock {
    mem: Memory,
    threads: Vec<PetersonPhase>,
}

impl View for PetersonLock {
    type V = PetersonState;

    closed spec fn view(&self) -> PetersonState {
        PetersonState { mem: self.mem@, ph: self.threads@ }
    }
}

impl PetersonLock {
    /// The shared memory of the lock.
    pub fn shared_memory(&self) -> (m: &Memory)
        ensures
            m@ == self@.mem,
    {
        &self.mem
    }

    /// The invariant; besides that of the protocol, no thread is left
    /// half-way through a release, since a release is a single step.
    pub open spec fn wf(&self) -> bool {
        &&& self@.inv()
        &&& forall|t: int| 0 <= t < 2 ==> self@.ph[t] != PetersonPhase::Lower
    }

    /// Thread `me` is in its critical section.
    pub open spec fn holds(&self, me: int) -> bool {
        self@.ph[me] == PetersonPhase::Critical
    }

    /// The other thread than `me` is not taking or holding the lock.
    pub open spec fn alone(&self, me: int) -> bool {
        self@.ph[1 - me] == PetersonPhase::Idle
    }

    /// The locking steps that thread `me`, alone, still takes before it
    /// holds the lock.
    pub open spec fn solo_steps(&self, me: int) -> nat {
        match self@.ph[me] {
            PetersonPhase::Critical => 0,
            PetersonPhase::ReadFlag => 1,
            PetersonPhase::Yield => 2,
            PetersonPhase::ReadVictim => 2,
            _ => 3,
        }
    }

    /// A free lock: both flags lowered, thread 0 the victim.
    pub fn new() -> (l: PetersonLock)
        ensures
            l.wf(),
            l@.mem == seq![0usize, 0usize, 0usize],
            l@.ph == seq![PetersonPhase::Idle, PetersonPhase::Idle],
    {
        let mem = Memory::new(3);
        let mut threads: Vec<PetersonPhase> = Vec::new();
        threads.push(PetersonPhase::Idle);
        threads.push(PetersonPhase::Idle);
        let l = PetersonLock { mem, threads };
        assert(l@.mem =~= seq![0usize, 0usize, 0usize]);
        assert(l@.ph =~= seq![PetersonPhase::Idle, PetersonPhase::Idle]);
        l
    }

    /// One step of thread `me` towards the critical section.  Returns
    /// whether `me` holds the lock afterwards; a thread that already holds it
    /// changes nothing.
    pub fn lock(&mut self, me: usize) -> (acquired: bool)
        requires
            old(self).wf(),
            me <= 1,
        ensures
            final(self).wf(),
            final(self)@ == old(self)@.lock_step(me as int),
            acquired == final(self).holds(me as int),
            old(self).alone(me as int) ==> final(self).alone(me as int) && (final(self).holds(
                me as int,
            ) || final(self).solo_steps(me as int) < old(self).solo_steps(me as int)),
    {
        let ghost s = self@;
        proof {
            let other = 1 - me;
            assert(s.mem[other] == (if s.ph[other] == PetersonPhase::Idle || s.ph[other]
                == PetersonPhase::Raise {
                0usize
            } else {
                1usize
            }));
        }
        if self.threads[me] == PetersonPhase::Critical {
            return true;
        }
        let p = self.threads[me].lock_entry();
        proof {
            lemma_step_keeps_inv(s, me as int, p);
        }
        let op = p.op(me);
        let r = self.mem.apply(op);
        let q = p.after(r, me);
        self.threads.set(me, q);
        assert(self@ == s.step_in(me as int, p));
        q == PetersonPhase::Critical
    }

    /// Leaves the critical section: lowers the flag of thread `me`.
    pub fn unlock(&mut self, me: usize)
        requires
            old(self).wf(),
            me <= 1,
            old(self).holds(me as int),
        ensures
            final(self).wf(),
            final(self)@ == old(self)@.unlock_step(me as int),
            final(self)@.ph[me as int] == PetersonPhase::Idle,
    {
        let ghost s = self@;
        let p = self.threads[me].unlock_entry();
        proof {
            lemma_step_keeps_inv(s, me as int, p);
        }
        let op = p.op(me);
        let r = self.mem.apply(op);
        let q = p.after(r, me);
        self.threads.set(me, q);
        assert(self@ == s.step_in(me as int, p));
    }

    /// Mutual exclusion: two threads that both hold the lock are one thread.
    pub proof fn lemma_mutual_exclusion(&self, i: int, j: int)
        requires
            self.wf(),
            0 <= i < 2,
            0 <= j < 2,
            self.holds(i),
            self.holds(j),
        ensures
            i == j,
    {
        lemma_peterson_mutual_exclusion(self@);
    }
}

} // verus!
