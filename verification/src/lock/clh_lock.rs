//! The CLH queue lock: a thread appends a fresh locked node to the queue by
//! swapping the tail, and spins on the node of its predecessor until that
//! node is unlocked.
use vstd::prelude::*;

use crate::lock::lock::RawLock;
use crate::lock::memory::{op_effect, op_ok, op_result, MemOp, Memory};

verus! {

/// The cell that points to the last node of the queue.
pub const TAIL: usize = 0;

/// The contents of a queue node: its lock word.
pub struct CLHNode {
    pub locked: bool,
}

impl CLHNode {
    /// A node with the given lock word.
    pub fn new(locked: bool) -> (node: CLHNode)
        ensures
            node.locked == locked,
    {
        CLHNode { locked }
    }

    /// The operation that allocates this node in shared memory.
    pub fn alloc_op(&self) -> (o: MemOp)
        ensures
            o == MemOp::Alloc(if self.locked {
                1
            } else {
                0
            }, 0),
    {
        MemOp::Alloc(if self.locked {
            1
        } else {
            0
        }, 0)
    }
}

/// Where a thread stands in the protocol of [`CLHLock`].
#[derive(Clone, Copy, Debug, PartialEq, Eq, Structural)]
pub enum ClhPhase {
    /// Not interested in the lock.
    Idle,
    /// About to allocate its node, locked.
    Alloc,
    /// About to swap its node `.0` into the tail.
    Enqueue(usize),
    /// With node `.0`, spinning on the lock word of its predecessor's node `.1`.
    Wait(usize, usize),
    /// In the critical section with node `.0`.
    Critical(usize),
    /// About to unlock its node `.0`.
    Release(usize),
}

impl ClhPhase {
    /// The phase in which a thread in this phase takes its next locking step:
    /// an idle thread starts by allocating its node.
    pub open spec fn spec_lock_entry(self) -> ClhPhase {
        if self == ClhPhase::Idle {
            ClhPhase::Alloc
        } else {
            self
        }
    }

    /// The phase in which a thread in this phase takes its next locking step.
    pub fn lock_entry(&self) -> (p: ClhPhase)
        ensures
            p == self.spec_lock_entry(),
    {
        if *self == ClhPhase::Idle {
            ClhPhase::Alloc
        } else {
            *self
        }
    }

    /// The phase in which a thread in this phase takes its next releasing
    /// step: a thread in its critical section starts by unlocking its node.
    pub open spec fn spec_unlock_entry(self) -> ClhPhase {
        match self {
            ClhPhase::Critical(cur) => ClhPhase::Release(cur),
            _ => self,
        }
    }

    /// The phase in which a thread in this phase takes its next releasing step.
    pub fn unlock_entry(&self) -> (p: ClhPhase)
        ensures
            p == self.spec_unlock_entry(),
    {
        match *self {
            ClhPhase::Critical(cur) => ClhPhase::Release(cur),
            _ => *self,
        }
    }

    /// The atomic operation that a thread in this phase performs next.
    pub open spec fn spec_op(self) -> MemOp {
        match self {
            ClhPhase::Alloc => MemOp::Alloc(1, 0),
            ClhPhase::Enqueue(cur) => MemOp::Swap(TAIL, cur),
            ClhPhase::Wait(_, prev) => MemOp::Load(prev),
            ClhPhase::Release(cur) => MemOp::Store(cur, 0),
            _ => MemOp::Snooze,
        }
    }

    /// The phase after the operation of this phase yielded `r`.
    pub open spec fn spec_after(self, r: usize) -> ClhPhase {
        match self {
            ClhPhase::Alloc => ClhPhase::Enqueue(r),
            ClhPhase::Enqueue(cur) => ClhPhase::Wait(cur, r),
            ClhPhase::Wait(cur, prev) => if r == 0 {
                ClhPhase::Critical(cur)
            } else {
                self
            },
            ClhPhase::Release(_) => ClhPhase::Idle,
            _ => self,
        }
    }

    /// The atomic operation that a thread in this phase performs next.
    pub fn op(&self) -> (o: MemOp)
        ensures
            o == self.spec_op(),
    {
        match self {
            ClhPhase::Alloc => CLHNode::new(true).alloc_op(),
            ClhPhase::Enqueue(cur) => MemOp::Swap(TAIL, *cur),
            ClhPhase::Wait(_, prev) => MemOp::Load(*prev),
            ClhPhase::Release(cur) => MemOp::Store(*cur, 0),
            _ => MemOp::Snooze,
        }
    }

    /// The phase after the operation of this phase yielded `r`.
    pub fn after(&self, r: usize) -> (p: ClhPhase)
        ensures
            p == self.spec_after(r),
    {
        match self {
            ClhPhase::Alloc => ClhPhase::Enqueue(r),
            ClhPhase::Enqueue(cur) => ClhPhase::Wait(*cur, r),
            ClhPhase::Wait(cur, _) => if r == 0 {
                ClhPhase::Critical(*cur)
            } else {
                *self
            },
            ClhPhase::Release(_) => ClhPhase::Idle,
            _ => *self,
        }
    }

    /// The node of a thread in this phase, once it has one.
    pub open spec fn node(self) -> int {
        match self {
            ClhPhase::Enqueue(cur) => cur as int,
            ClhPhase::Wait(cur, _) => cur as int,
            ClhPhase::Critical(cur) => cur as int,
            ClhPhase::Release(cur) => cur as int,
            _ => -1,
        }
    }

    /// A thread in this phase has swapped its node into the queue.
    pub open spec fn queued(self) -> bool {
        self is Wait || self is Critical || self is Release
    }
}

/// The state of a CLH lock: the memory, every thread's phase, and two ghost
/// records: the unlocked node the queue starts from, and the queued threads
/// in order.
pub struct ClhState {
    /// The tail, then the nodes.
    pub mem: Seq<usize>,
    /// The phase of each thread.
    pub ph: Seq<ClhPhase>,
    /// The unlocked node that the first queued thread spins on.
    pub head: int,
    /// The queued threads, in the order they swapped their nodes in.
    pub queue: Seq<int>,
}

impl ClhState {
    /// The phase of thread `t`; a thread that never used the lock is idle.
    pub open spec fn phase(self, t: int) -> ClhPhase {
        if 0 <= t < self.ph.len() {
            self.ph[t]
        } else {
            ClhPhase::Idle
        }
    }

    /// The node that the `j`-th queued thread spins on.
    pub open spec fn pred(self, j: int) -> int {
        if j == 0 {
            self.head
        } else {
            self.ph[self.queue[j - 1]].node()
        }
    }

    /// The last node of the queue.
    pub open spec fn last(self) -> int {
        self.pred(self.queue.len() as int)
    }

    /// `c` is the first word of an allocated node.
    pub open spec fn is_node(self, c: int) -> bool {
        1 <= c && c + 1 < self.mem.len()
    }

    /// What holds of a single thread.
    pub open spec fn local_ok(self, t: int) -> bool {
        let p = self.ph[t];
        &&& p is Enqueue ==> self.is_node(p.node()) && self.mem[p.node()] == 1 && p.node() != self.head
        &&& p.queued() ==> self.queue.contains(t)
        &&& p is Release ==> self.queue.len() > 0 && self.queue[0] == t
    }

    /// What holds of the `j`-th queued thread.
    pub open spec fn queue_ok(self, j: int) -> bool {
        let t = self.queue[j];
        let p = self.ph[t];
        &&& 0 <= t < self.ph.len()
        &&& p.queued()
        &&& self.is_node(p.node())
        &&& self.mem[p.node()] == 1
        &&& p.node() != self.head
        &&& p is Wait ==> p->Wait_1 == self.pred(j)
        &&& (p is Critical || p is Release) ==> j == 0
    }

    /// The invariant of the CLH lock.
    pub open spec fn inv(self) -> bool {
        &&& self.mem.len() >= 3
        &&& self.is_node(self.head)
        &&& self.mem[self.head] == 0
        &&& self.mem[TAIL as int] == self.last()
        &&& forall|t: int| 0 <= t < self.ph.len() ==> #[trigger] self.local_ok(t)
        &&& forall|j: int| 0 <= j < self.queue.len() ==> #[trigger] self.queue_ok(j)
        &&& forall|j: int, k: int|
            0 <= j < k < self.queue.len() ==> self.queue[j] != self.queue[k]
        &&& forall|t: int, u: int|
            0 <= t < self.ph.len() && 0 <= u < self.ph.len() && t != u && (self.ph[t] is Enqueue
                || self.ph[t].queued()) && (self.ph[u] is Enqueue || self.ph[u].queued())
                ==> #[trigger] self.ph[t].node() != #[trigger] self.ph[u].node()
    }
}

impl ClhState {
    /// The phase in which thread `t` takes its next locking step.
    pub open spec fn lock_phase(self, t: int) -> ClhPhase {
        self.phase(t).spec_lock_entry()
    }

    /// The state after thread `t` takes one step in phase `p`.
    pub open spec fn step_in(self, t: int, p: ClhPhase) -> ClhState {
        let op = p.spec_op();
        ClhState {
            mem: op_effect(self.mem, op),
            ph: self.ph.update(t, p.spec_after(op_result(self.mem, op))),
            head: if p is Release {
                p.node()
            } else {
                self.head
            },
            queue: if p is Enqueue {
                self.queue.push(t)
            } else if p is Release {
                self.queue.drop_first()
            } else {
                self.queue
            },
        }
    }

    /// No thread but `x` is taking or holding the lock.
    pub open spec fn alone(self, x: int) -> bool {
        forall|t: int| t != x ==> self.phase(t) == ClhPhase::Idle
    }

    /// The releasing steps that thread `x` still takes: unlocking its node
    /// is the whole release.
    pub open spec fn release_steps(self, x: int) -> nat {
        0
    }

    /// The locking steps that thread `x`, alone, still takes before it holds
    /// the lock.
    pub open spec fn solo_steps(self, x: int) -> nat {
        match self.phase(x) {
            ClhPhase::Critical(_) => 0,
            ClhPhase::Wait(_, _) => 1,
            ClhPhase::Enqueue(_) => 2,
            _ => 3,
        }
    }

    /// The state after one locking step of thread `t`; a thread in its
    /// critical section takes none.
    pub open spec fn lock_step(self, t: int) -> ClhState {
        if self.phase(t) is Critical {
            self
        } else {
            self.with_thread(t).step_in(t, self.lock_phase(t))
        }
    }

    /// The state after the releasing step of thread `t` in its critical section.
    pub open spec fn unlock_step(self, t: int) -> ClhState {
        self.step_in(t, self.phase(t).spec_unlock_entry())
    }

    /// The same state with room for the phase of thread `t`.
    pub open spec fn with_thread(self, t: int) -> ClhState {
        if t < self.ph.len() {
            self
        } else {
            ClhState {
                ph: self.ph + Seq::new((t + 1 - self.ph.len()) as nat, |i: int| ClhPhase::Idle),
                ..self
            }
        }
    }
}

/// The steps that a thread may take: a locking step, or the releasing step
/// from the critical section; an allocation needs room in memory.
pub open spec fn valid_step(s: ClhState, x: int, p: ClhPhase) -> bool {
    &&& p is Alloc ==> s.mem.len() + 2 <= usize::MAX
    &&& {
        ||| p == s.lock_phase(x) && !(s.phase(x) is Critical) && !(s.phase(x) is Release)
        ||| s.phase(x) is Critical && p == ClhPhase::Release(s.phase(x).node() as usize)
    }
}

/// Making room for more threads keeps the invariant.
proof fn lemma_with_thread(s: ClhState, t: int)
    requires
        s.inv(),
        0 <= t,
    ensures
        s.with_thread(t).inv(),
        t < s.with_thread(t).ph.len(),
        forall|u: int| #[trigger] s.with_thread(t).phase(u) == s.phase(u),
{
    let s2 = s.with_thread(t);
    if t >= s.ph.len() {
        assert forall|u: int| 0 <= u < s.ph.len() implies s2.ph[u] == s.ph[u] by {}
        assert forall|u: int| 0 <= u < s2.ph.len() implies #[trigger] s2.local_ok(u) by {
            if u < s.ph.len() {
                assert(s.local_ok(u));
            }
        }
        assert forall|j: int| 0 <= j <= s2.queue.len() implies s2.pred(j) == s.pred(j) by {
            if j > 0 {
                assert(s.queue_ok(j - 1));
            }
        }
        assert forall|j: int| 0 <= j < s2.queue.len() implies #[trigger] s2.queue_ok(j) by {
            assert(s.queue_ok(j));
        }
    }
}

/// Every step that a thread may take keeps the invariant.
pub proof fn lemma_step_keeps_inv(s: ClhState, x: int, p: ClhPhase)
    requires
        s.inv(),
        0 <= x < s.ph.len(),
        valid_step(s, x, p),
    ensures
        s.step_in(x, p).inv(),
        op_ok(s.mem, p.spec_op()),
{
    let s2 = s.step_in(x, p);
    let r = op_result(s.mem, p.spec_op());
    assert(s.phase(x) == s.ph[x]);
    assert(s.local_ok(x));
    assert(s2.ph[x] == p.spec_after(r));
    match p {
        ClhPhase::Alloc => {
            let len = s.mem.len() as int;
            assert(s2.mem[len] == 1);
            assert forall|c: int| 0 <= c < len implies s2.mem[c] == s.mem[c] by {}
            assert(s.head < len);
            assert forall|t: int| 0 <= t < s2.ph.len() implies #[trigger] s2.local_ok(t) by {
                assert(s.local_ok(t));
                if t != x {
                    assert(s2.ph[t] == s.ph[t]);
                    if s.ph[t] is Enqueue {
                        assert(s.ph[t].node() < len);
                    }
                } else {
                    assert(s2.ph[x] == ClhPhase::Enqueue(len as usize));
                    assert(s2.is_node(len));
                }
            }
            assert forall|j: int| 0 <= j <= s2.queue.len() implies s2.pred(j) == s.pred(j) by {
                if j > 0 {
                    assert(s.queue_ok(j - 1));
                }
            }
            assert forall|j: int| 0 <= j < s2.queue.len() implies #[trigger] s2.queue_ok(j) by {
                assert(s.queue_ok(j));
            }
            assert forall|t: int|
                0 <= t < s.ph.len() && t != x && (s.ph[t] is Enqueue || s.ph[t].queued()) implies s.ph[t].node() < len by {
                assert(s.local_ok(t));
                if s.ph[t].queued() {
                    let j = choose|j: int| 0 <= j < s.queue.len() && s.queue[j] == t;
                    assert(s.queue_ok(j));
                }
            }
            assert(s2.mem[TAIL as int] == s.mem[TAIL as int]);
        },
        ClhPhase::Enqueue(cur) => {
            assert(!s.queue.contains(x)) by {
                if s.queue.contains(x) {
                    let j = choose|j: int| 0 <= j < s.queue.len() && s.queue[j] == x;
                    assert(s.queue_ok(j));
                }
            }
            assert forall|t: int| 0 <= t < s2.ph.len() implies #[trigger] s2.local_ok(t) by {
                assert(s.local_ok(t));
                if t != x && s.ph[t].queued() {
                    let j = choose|j: int| 0 <= j < s.queue.len() && s.queue[j] == t;
                    assert(s2.queue[j] == t);
                }
                if t == x {
                    assert(s2.queue[s.queue.len() as int] == x);
                }
            }
            assert forall|j: int| 0 <= j <= s.queue.len() implies s2.pred(j) == s.pred(j) by {
                if j > 0 {
                    assert(s.queue_ok(j - 1));
                }
            }
            assert forall|j: int| 0 <= j < s2.queue.len() implies #[trigger] s2.queue_ok(j) by {
                if j < s.queue.len() {
                    assert(s.queue_ok(j));
                }
            }
            assert(s2.last() == cur);
        },
        ClhPhase::Wait(cur, prev) => {
            let j = choose|j: int| 0 <= j < s.queue.len() && s.queue[j] == x;
            assert(s.queue_ok(j));
            if j > 0 {
                assert(s.queue_ok(j - 1));
            }
            assert forall|t: int| 0 <= t < s2.ph.len() implies #[trigger] s2.local_ok(t) by {
                assert(s.local_ok(t));
            }
            assert forall|i: int| 0 <= i <= s2.queue.len() implies s2.pred(i) == s.pred(i) by {
                if i > 0 {
                    assert(s.queue_ok(i - 1));
                }
            }
            assert forall|i: int| 0 <= i < s2.queue.len() implies #[trigger] s2.queue_ok(i) by {
                assert(s.queue_ok(i));
                if s.queue[i] == x {
                    assert(i == j);
                }
            }
        },
        ClhPhase::Release(cur) => {
            let jx = choose|j: int| 0 <= j < s.queue.len() && s.queue[j] == x;
            assert(s.queue_ok(jx));
            assert(s.queue[0] == x);
            assert forall|i: int| 0 <= i < s2.queue.len() implies s2.queue[i] == s.queue[i + 1]
                && s2.pred(i) == s.pred(i + 1) by {
                assert(s.queue_ok(i));
            }
            assert forall|i: int| 0 <= i < s2.queue.len() implies #[trigger] s2.queue_ok(i) by {
                assert(s.queue_ok(i + 1));
                assert(s.queue[0] != s.queue[i + 1]);
            }
            assert forall|t: int| 0 <= t < s2.ph.len() implies #[trigger] s2.local_ok(t) by {
                assert(s.local_ok(t));
                if t != x && s.ph[t].queued() {
                    let j = choose|j: int| 0 <= j < s.queue.len() && s.queue[j] == t;
                    assert(j != 0);
                    assert(s2.queue[j - 1] == t);
                }
            }
            if s.queue.len() > 1 {
                assert(s.queue_ok(s.queue.len() - 1));
            }
        },
        _ => {},
    }
}

/// Mutual exclusion: in a state that satisfies the invariant, two threads
/// in the critical section are one thread.
pub proof fn lemma_clh_mutual_exclusion(s: ClhState, a: int, b: int)
    requires
        s.inv(),
        s.phase(a) is Critical,
        s.phase(b) is Critical,
    ensures
        a == b,
{
    assert(s.local_ok(a));
    assert(s.local_ok(b));
    let ja = choose|j: int| 0 <= j < s.queue.len() && s.queue[j] == a;
    let jb = choose|j: int| 0 <= j < s.queue.len() && s.queue[j] == b;
    assert(s.queue_ok(ja));
    assert(s.queue_ok(jb));
}

/// A thread that takes the lock alone holds it after at most three steps:
/// the queue holds no other thread, so it spins on the unlocked node.
pub proof fn lemma_clh_solo_step(s: ClhState, x: int)
    requires
        s.inv(),
        0 <= x,
        s.alone(x),
        !(s.phase(x) is Release),
        s.lock_phase(x) is Alloc ==> s.mem.len() + 2 <= usize::MAX,
    ensures
        s.lock_step(x).alone(x),
        s.lock_step(x).phase(x) is Critical || s.lock_step(x).solo_steps(x) < s.solo_steps(x),
{
    if !(s.phase(x) is Critical) {
        let s1 = s.with_thread(x);
        lemma_with_thread(s, x);
        assert(s1.ph[x] == s.phase(x));
        assert forall|j: int| 0 <= j < s1.queue.len() implies s1.queue[j] == x by {
            assert(s1.queue_ok(j));
            assert(s1.phase(s1.queue[j]) == s.phase(s1.queue[j]));
        }
        assert(s1.local_ok(x));
        if s1.ph[x] is Wait {
            let j = choose|j: int| 0 <= j < s1.queue.len() && s1.queue[j] == x;
            assert(s1.queue_ok(j));
            if j > 0 {
                assert(s1.queue[j - 1] == x);
            }
        } else if s1.queue.len() > 0 {
            assert(s1.queue_ok(0));
        }
        lemma_step_keeps_inv(s1, x, s1.lock_phase(x));
        let s2 = s.lock_step(x);
        assert forall|t: int| t != x implies s2.phase(t) == ClhPhase::Idle by {
            assert(s1.phase(t) == s.phase(t));
        }
    }
}

/// Threads are served in the order they joined the queue: the first queued
/// thread, waiting, enters the critical section on its next step.
pub proof fn lemma_clh_first_enters(s: ClhState, x: int)
    requires
        s.inv(),
        s.queue.len() > 0,
        s.queue[0] == x,
        s.phase(x) is Wait,
    ensures
        s.lock_step(x).phase(x) is Critical,
{
    assert(s.queue_ok(0));
}

/// A CLH queue lock, with the protocol state of each thread that has used it.
pub struct CLHLock {
    mem: Memory,
    threads: Vec<ClhPhase>,
    head: Ghost<int>,
    queue: Ghost<Seq<int>>,
}

impl View for CLHLock {
    type V = ClhState;

    closed spec fn view(&self) -> ClhState {
        ClhState { mem: self.mem@, ph: self.threads@, head: self.head@, queue: self.queue@ }
    }
}

impl CLHLock {
    /// The shared memory of the lock.
    pub fn shared_memory(&self) -> (m: &Memory)
        ensures
            m@ == self@.mem,
    {
        &self.mem
    }

    /// Makes room for the protocol state of thread `tid`.
    fn register(&mut self, tid: usize)
        requires
            old(self)@.inv(),
        ensures
            final(self)@ == old(self)@.with_thread(tid as int),
            tid < final(self).threads.len(),
    {
        let ghost s = self@;
        let ghost len0 = self.threads.len();
        while self.threads.len() <= tid
            invariant
                len0 <= self.threads.len() <= tid + 1 || (len0 == self.threads.len() && len0 > tid),
                len0 == s.ph.len(),
                self.threads@ == s.ph + Seq::new(
                    (self.threads.len() - len0) as nat,
                    |i: int| ClhPhase::Idle,
                ),
                self.mem@ == s.mem,
                self.head@ == s.head,
                self.queue@ == s.queue,
            decreases tid + 1 - self.threads.len(),
        {
            self.threads.push(ClhPhase::Idle);
            assert(self.threads@ =~= s.ph + Seq::new(
                (self.threads.len() - len0) as nat,
                |i: int| ClhPhase::Idle,
            ));
        }
        assert(self@ =~= s.with_thread(tid as int));
    }
}

impl RawLock for CLHLock {
    closed spec fn wf(&self) -> bool {
        &&& self@.inv()
        &&& forall|t: int| 0 <= t < self@.ph.len() ==> !(self@.ph[t] is Release)
    }

    open spec fn holds(&self, tid: int) -> bool {
        self@.phase(tid) is Critical
    }

    open spec fn releasing(&self, tid: int) -> bool {
        self@.phase(tid) is Release
    }

    open spec fn admits(&self, tid: int) -> bool {
        self@.lock_phase(tid) is Alloc ==> self@.mem.len() + 2 <= usize::MAX
    }

    open spec fn idle(&self, tid: int) -> bool {
        self@.phase(tid) == ClhPhase::Idle
    }

    open spec fn release_steps(&self, tid: int) -> nat {
        self@.release_steps(tid)
    }

    open spec fn solo_steps(&self, tid: int) -> nat {
        self@.solo_steps(tid)
    }

    fn create() -> (l: Self)
        ensures
            l@.mem == seq![1usize, 0usize, 0usize],
            l@.ph.len() == 0,
            l@.head == 1,
            l@.queue.len() == 0,
    {
        let mut mem = Memory::new(3);
        mem.write(TAIL, 1);
        let l = CLHLock { mem, threads: Vec::new(), head: Ghost(1), queue: Ghost(Seq::empty()) };
        assert(l@.mem =~= seq![1usize, 0usize, 0usize]);
        l
    }

    fn lock(&mut self, tid: usize) -> (acquired: bool)
        ensures
            final(self)@ == old(self)@.lock_step(tid as int),
    {
        proof {
            if forall|u: int| u != tid ==> old(self).idle(u) {
                assert forall|u: int| u != tid implies old(self)@.phase(u) == ClhPhase::Idle by {
                    assert(old(self).idle(u));
                }
                lemma_clh_solo_step(old(self)@, tid as int);
            }
        }
        if tid < self.threads.len() && matches!(self.threads[tid], ClhPhase::Critical(_)) {
            return true;
        }
        let ghost s0 = self@;
        self.register(tid);
        proof {
            lemma_with_thread(s0, tid as int);
        }
        let ghost s = self@;
        let p = self.threads[tid].lock_entry();
        proof {
            lemma_step_keeps_inv(s, tid as int, p);
        }
        let op = p.op();
        let r = self.mem.apply(op);
        let q = p.after(r);
        self.threads.set(tid, q);
        let ghost s2 = s.step_in(tid as int, p);
        self.head = Ghost(s2.head);
        self.queue = Ghost(s2.queue);
        assert(self@ == s2);
        matches!(q, ClhPhase::Critical(_))
    }

    fn unlock(&mut self, tid: usize) -> (released: bool)
        ensures
            final(self)@ == old(self)@.unlock_step(tid as int),
    {
        let ghost s = self@;
        let p = self.threads[tid].unlock_entry();
        proof {
            lemma_step_keeps_inv(s, tid as int, p);
        }
        let op = p.op();
        let r = self.mem.apply(op);
        let q = p.after(r);
        self.threads.set(tid, q);
        let ghost s2 = s.step_in(tid as int, p);
        self.head = Ghost(s2.head);
        self.queue = Ghost(s2.queue);
        assert(self@ == s2);
        true
    }

    proof fn lemma_mutual_exclusion(&self, i: int, j: int) {
        lemma_clh_mutual_exclusion(self@, i, j);
    }

    proof fn lemma_idle(&self, tid: int) {
    }
}

impl Default for CLHLock {
    /// A free lock, as [`RawLock::create`] makes it.
    fn default() -> (l: Self)
        ensures
            l.wf(),
            forall|t: int| !l.holds(t) && !l.releasing(t),
            forall|t: int| l.idle(t),
            l@.mem == seq![1usize, 0usize, 0usize],
            l@.ph.len() == 0,
            l@.head == 1,
            l@.queue.len() == 0,
    {
        Self::create()
    }
}

} // verus!
