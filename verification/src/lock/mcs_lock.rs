//! The MCS queue lock: a thread appends its node to the queue by swapping
//! the tail, links itself behind its predecessor and spins on its own node;
//! the holder passes the lock to its successor, or clears the tail when it
//! has none.
use vstd::prelude::*;

use crate::lock::lock::RawLock;
use crate::lock::memory::{op_effect, op_ok, op_result, MemOp, Memory, NULL};

verus! {

/// The cell that points to the last node of the queue (null when empty).
pub const TAIL: usize = 0;

/// The contents of a queue node: the pointer to its successor and its lock word.
pub struct MCSNode {
    pub next: usize,
    pub locked: bool,
}

impl MCSNode {
    /// A node with no successor, unlocked.
    pub fn new() -> (node: MCSNode)
        ensures
            node.next == NULL,
            !node.locked,
    {
        MCSNode { next: NULL, locked: false }
    }

    /// The operation that allocates this node in shared memory.
    pub fn alloc_op(&self) -> (o: MemOp)
        ensures
            o == MemOp::Alloc(self.next, if self.locked {
                1
            } else {
                0
            }),
    {
        MemOp::Alloc(self.next, if self.locked {
            1
        } else {
            0
        })
    }
}

/// Where a thread stands in the protocol of [`MCSLock`].  A node `c` has
/// its `next` pointer in cell `c` and its `locked` word in cell `c + 1`.
#[derive(Clone, Copy, Debug, PartialEq, Eq, Structural)]
pub enum McsPhase {
    /// Not interested in the lock.
    Idle,
    /// About to allocate its node, unlinked and unlocked.
    Alloc,
    /// About to swap its node `.0` into the tail.
    Swap(usize),
    /// With node `.0` behind node `.1`: about to lock its own node.
    SetLocked(usize, usize),
    /// With node `.0` behind node `.1`: about to link itself to its predecessor.
    Link(usize, usize),
    /// With node `.0` behind node `.1`: spinning on its own lock word.
    Spin(usize, usize),
    /// In the critical section with node `.0`.
    Critical(usize),
    /// Releasing with node `.0`: reading its successor.
    ReadNext(usize),
    /// Releasing with node `.0`: trying to clear the tail.
    Cas(usize),
    /// Releasing with node `.0`: waiting for its successor to link itself.
    AwaitNext(usize),
    /// Releasing with node `.0`: reading its successor to pass it the lock.
    Pass(usize),
    /// Releasing with node `.0`: unlocking its successor's node `.1`.
    Handoff(usize, usize),
}

impl McsPhase {
    /// The phase in which a thread in this phase takes its next locking step:
    /// an idle thread starts by allocating its node.
    pub open spec fn spec_lock_entry(self) -> McsPhase {
        if self == McsPhase::Idle {
            McsPhase::Alloc
        } else {
            self
        }
    }

    /// The phase in which a thread in this phase takes its next locking step.
    pub fn lock_entry(&self) -> (p: McsPhase)
        ensures
            p == self.spec_lock_entry(),
    {
        if *self == McsPhase::Idle {
            McsPhase::Alloc
        } else {
            *self
        }
    }

    /// The phase in which a thread in this phase takes its next releasing
    /// step: a thread in its critical section starts by reading its successor.
    pub open spec fn spec_unlock_entry(self) -> McsPhase {
        match self {
            McsPhase::Critical(cur) => McsPhase::ReadNext(cur),
            _ => self,
        }
    }

    /// The phase in which a thread in this phase takes its next releasing step.
    pub fn unlock_entry(&self) -> (p: McsPhase)
        ensures
            p == self.spec_unlock_entry(),
    {
        match *self {
            McsPhase::Critical(cur) => McsPhase::ReadNext(cur),
            _ => *self,
        }
    }

    /// The atomic operation that a thread in this phase performs next.
    pub open spec fn spec_op(self) -> MemOp {
        match self {
            McsPhase::Alloc => MemOp::Alloc(NULL, 0),
            McsPhase::Swap(cur) => MemOp::Swap(TAIL, cur),
            McsPhase::SetLocked(cur, _) => MemOp::Store((cur + 1) as usize, 1),
            McsPhase::Link(cur, prev) => MemOp::Store(prev, cur),
            McsPhase::Spin(cur, _) => MemOp::Load((cur + 1) as usize),
            McsPhase::ReadNext(cur) => MemOp::Load(cur),
            McsPhase::Cas(cur) => MemOp::CompareExchange(TAIL, cur, NULL),
            McsPhase::AwaitNext(cur) => MemOp::Load(cur),
            McsPhase::Pass(cur) => MemOp::Load(cur),
            McsPhase::Handoff(_, next) => MemOp::Store((next + 1) as usize, 0),
            _ => MemOp::Snooze,
        }
    }

    /// The phase after the operation of this phase yielded `r`.
    pub open spec fn spec_after(self, r: usize) -> McsPhase {
        match self {
            McsPhase::Alloc => McsPhase::Swap(r),
            McsPhase::Swap(cur) => if r == NULL {
                McsPhase::Critical(cur)
            } else {
                McsPhase::SetLocked(cur, r)
            },
            McsPhase::SetLocked(cur, prev) => McsPhase::Link(cur, prev),
            McsPhase::Link(cur, prev) => McsPhase::Spin(cur, prev),
            McsPhase::Spin(cur, _) => if r == 0 {
                McsPhase::Critical(cur)
            } else {
                self
            },
            McsPhase::ReadNext(cur) => if r == NULL {
                McsPhase::Cas(cur)
            } else {
                McsPhase::Pass(cur)
            },
            McsPhase::Cas(cur) => if r == cur {
                McsPhase::Idle
            } else {
                McsPhase::AwaitNext(cur)
            },
            McsPhase::AwaitNext(cur) => if r == NULL {
                self
            } else {
                McsPhase::Pass(cur)
            },
            McsPhase::Pass(cur) => McsPhase::Handoff(cur, r),
            McsPhase::Handoff(_, _) => McsPhase::Idle,
            _ => self,
        }
    }

    /// The atomic operation that a thread in this phase performs next.
    pub fn op(&self) -> (o: MemOp)
        requires
            match *self {
                McsPhase::SetLocked(cur, _) => cur < usize::MAX,
                McsPhase::Spin(cur, _) => cur < usize::MAX,
                McsPhase::Handoff(_, next) => next < usize::MAX,
                _ => true,
            },
        ensures
            o == self.spec_op(),
    {
        match self {
            McsPhase::Alloc => MCSNode::new().alloc_op(),
            McsPhase::Swap(cur) => MemOp::Swap(TAIL, *cur),
            McsPhase::SetLocked(cur, _) => MemOp::Store(*cur + 1, 1),
            McsPhase::Link(cur, prev) => MemOp::Store(*prev, *cur),
            McsPhase::Spin(cur, _) => MemOp::Load(*cur + 1),
            McsPhase::ReadNext(cur) => MemOp::Load(*cur),
            McsPhase::Cas(cur) => MemOp::CompareExchange(TAIL, *cur, NULL),
            McsPhase::AwaitNext(cur) => MemOp::Load(*cur),
            McsPhase::Pass(cur) => MemOp::Load(*cur),
            McsPhase::Handoff(_, next) => MemOp::Store(*next + 1, 0),
            _ => MemOp::Snooze,
        }
    }

    /// The phase after the operation of this phase yielded `r`.
    pub fn after(&self, r: usize) -> (p: McsPhase)
        ensures
            p == self.spec_after(r),
    {
        match self {
            McsPhase::Alloc => McsPhase::Swap(r),
            McsPhase::Swap(cur) => if r == NULL {
                McsPhase::Critical(*cur)
            } else {
                McsPhase::SetLocked(*cur, r)
            },
            McsPhase::SetLocked(cur, prev) => McsPhase::Link(*cur, *prev),
            McsPhase::Link(cur, prev) => McsPhase::Spin(*cur, *prev),
            McsPhase::Spin(cur, _) => if r == 0 {
                McsPhase::Critical(*cur)
            } else {
                *self
            },
            McsPhase::ReadNext(cur) => if r == NULL {
                McsPhase::Cas(*cur)
            } else {
                McsPhase::Pass(*cur)
            },
            McsPhase::Cas(cur) => if r == *cur {
                McsPhase::Idle
            } else {
                McsPhase::AwaitNext(*cur)
            },
            McsPhase::AwaitNext(cur) => if r == NULL {
                *self
            } else {
                McsPhase::Pass(*cur)
            },
            McsPhase::Pass(cur) => McsPhase::Handoff(*cur, r),
            McsPhase::Handoff(_, _) => McsPhase::Idle,
            _ => *self,
        }
    }

    /// The node of a thread in this phase, once it has one.
    pub open spec fn node(self) -> int {
        match self {
            McsPhase::Swap(cur) => cur as int,
            McsPhase::SetLocked(cur, _) => cur as int,
            McsPhase::Link(cur, _) => cur as int,
            McsPhase::Spin(cur, _) => cur as int,
            McsPhase::Critical(cur) => cur as int,
            McsPhase::ReadNext(cur) => cur as int,
            McsPhase::Cas(cur) => cur as int,
            McsPhase::AwaitNext(cur) => cur as int,
            McsPhase::Pass(cur) => cur as int,
            McsPhase::Handoff(cur, _) => cur as int,
            _ => -1,
        }
    }

    /// A thread in this phase has swapped its node into the queue.
    pub open spec fn queued(self) -> bool {
        !(self is Idle || self is Alloc || self is Swap)
    }

    /// A thread in this phase is releasing the lock.
    pub open spec fn releasing(self) -> bool {
        self is ReadNext || self is Cas || self is AwaitNext || self is Pass || self is Handoff
    }

    /// A thread in this phase waits behind a predecessor.
    pub open spec fn behind(self) -> bool {
        self is SetLocked || self is Link || self is Spin
    }

    /// The predecessor's node of a thread in this phase.
    pub open spec fn prev(self) -> int {
        match self {
            McsPhase::SetLocked(_, prev) => prev as int,
            McsPhase::Link(_, prev) => prev as int,
            McsPhase::Spin(_, prev) => prev as int,
            _ => -1,
        }
    }
}

/// The state of an MCS lock: the memory, every thread's phase, and a ghost
/// record of the queued threads in order, the holder first.
pub struct McsState {
    /// The tail, then the nodes.
    pub mem: Seq<usize>,
    /// The phase of each thread.
    pub ph: Seq<McsPhase>,
    /// The queued threads, the holder first.
    pub queue: Seq<int>,
}

impl McsState {
    /// The phase of thread `t`; a thread that never used the lock is idle.
    pub open spec fn phase(self, t: int) -> McsPhase {
        if 0 <= t < self.ph.len() {
            self.ph[t]
        } else {
            McsPhase::Idle
        }
    }

    /// The node of the `j`-th queued thread.
    pub open spec fn qnode(self, j: int) -> int {
        self.ph[self.queue[j]].node()
    }

    /// `c` is the first word of an allocated node.
    pub open spec fn is_node(self, c: int) -> bool {
        1 <= c && c + 1 < self.mem.len() && c % 2 == 1
    }

    /// What holds of a single thread.
    pub open spec fn local_ok(self, t: int) -> bool {
        let p = self.ph[t];
        &&& p is Swap ==> self.is_node(p.node()) && self.mem[p.node()] == NULL && self.mem[p.node()
            + 1] == 0
        &&& p.queued() ==> self.queue.contains(t)
    }

    /// What holds of the `j`-th queued thread.
    pub open spec fn queue_ok(self, j: int) -> bool {
        let t = self.queue[j];
        let p = self.ph[t];
        let c = p.node();
        let len = self.queue.len();
        &&& 0 <= t < self.ph.len()
        &&& p.queued()
        &&& self.is_node(c)
        &&& j == 0 ==> !p.behind() || (p is Spin && self.mem[c + 1] == 0)
        &&& j == 0 && (p is AwaitNext || p is Pass || p is Handoff) ==> len >= 2
        &&& j == 0 && (p is Pass || p is Handoff) ==> self.ph[self.queue[1]] is Spin
        &&& j == 0 && p is Handoff ==> p->Handoff_1 == self.qnode(1)
        &&& j > 0 ==> p.behind() && p.prev() == self.qnode(j - 1)
        &&& j > 0 && (p is Link || p is Spin) ==> self.mem[c + 1] == 1
        &&& j + 1 < len ==> self.mem[c] == (if self.ph[self.queue[j + 1]] is Spin {
            self.qnode(j + 1) as usize
        } else {
            NULL
        })
        &&& j + 1 == len ==> self.mem[c] == NULL
    }

    /// The invariant of the MCS lock.
    pub open spec fn inv(self) -> bool {
        &&& 1 <= self.mem.len() <= usize::MAX
        &&& self.mem.len() % 2 == 1
        &&& self.mem[TAIL as int] == (if self.queue.len() == 0 {
            NULL
        } else {
            self.qnode(self.queue.len() - 1) as usize
        })
        &&& forall|t: int| 0 <= t < self.ph.len() ==> #[trigger] self.local_ok(t)
        &&& forall|j: int| 0 <= j < self.queue.len() ==> #[trigger] self.queue_ok(j)
        &&& forall|j: int, k: int|
            0 <= j < k < self.queue.len() ==> self.queue[j] != self.queue[k]
        &&& forall|t: int, u: int|
            0 <= t < self.ph.len() && 0 <= u < self.ph.len() && t != u && (self.ph[t] is Swap
                || self.ph[t].queued()) && (self.ph[u] is Swap || self.ph[u].queued())
                ==> #[trigger] self.ph[t].node() != #[trigger] self.ph[u].node()
    }

    /// The phase in which thread `t` takes its next locking step.
    pub open spec fn lock_phase(self, t: int) -> McsPhase {
        self.phase(t).spec_lock_entry()
    }

    /// The phase in which thread `t` takes its next releasing step.
    pub open spec fn unlock_phase(self, t: int) -> McsPhase {
        self.phase(t).spec_unlock_entry()
    }

    /// The state after thread `t` takes one step in phase `p`.
    pub open spec fn step_in(self, t: int, p: McsPhase) -> McsState {
        let op = p.spec_op();
        let r = op_result(self.mem, op);
        McsState {
            mem: op_effect(self.mem, op),
            ph: self.ph.update(t, p.spec_after(r)),
            queue: if p is Swap {
                self.queue.push(t)
            } else if (p is Cas && r == p.node()) || p is Handoff {
                self.queue.drop_first()
            } else {
                self.queue
            },
        }
    }

    /// The same state with room for the phase of thread `t`.
    pub open spec fn with_thread(self, t: int) -> McsState {
        if t < self.ph.len() {
            self
        } else {
            McsState {
                ph: self.ph + Seq::new((t + 1 - self.ph.len()) as nat, |i: int| McsPhase::Idle),
                ..self
            }
        }
    }

    /// No thread but `x` is taking or holding the lock.
    pub open spec fn alone(self, x: int) -> bool {
        forall|t: int| t != x ==> self.phase(t) == McsPhase::Idle
    }

    /// The releasing steps that thread `x`, with no successor, still takes:
    /// reading that it has no successor, then clearing the tail.
    pub open spec fn release_steps(self, x: int) -> nat {
        match self.phase(x) {
            McsPhase::Cas(_) => 1,
            McsPhase::Critical(_) => 2,
            McsPhase::ReadNext(_) => 2,
            _ => 3,
        }
    }

    /// The locking steps that thread `x`, alone, still takes before it holds
    /// the lock.
    pub open spec fn solo_steps(self, x: int) -> nat {
        match self.phase(x) {
            McsPhase::Critical(_) => 0,
            McsPhase::Swap(_) => 1,
            McsPhase::Spin(_, _) => 1,
            McsPhase::Link(_, _) => 2,
            McsPhase::SetLocked(_, _) => 3,
            _ => 2,
        }
    }

    /// The state after one locking step of thread `t`; a thread in its
    /// critical section takes none.
    pub open spec fn lock_step(self, t: int) -> McsState {
        if self.phase(t) is Critical {
            self
        } else {
            self.with_thread(t).step_in(t, self.lock_phase(t))
        }
    }

    /// The state after one releasing step of thread `t`.
    pub open spec fn unlock_step(self, t: int) -> McsState {
        self.step_in(t, self.unlock_phase(t))
    }
}

/// The steps that a thread may take: a locking step, or a releasing step
/// from the critical section or during a release; an allocation needs room
/// in memory.
pub open spec fn valid_step(s: McsState, x: int, p: McsPhase) -> bool {
    &&& p is Alloc ==> s.mem.len() + 2 <= usize::MAX
    &&& {
        ||| p == s.lock_phase(x) && !(s.phase(x) is Critical) && !s.phase(x).releasing()
        ||| (s.phase(x) is Critical || s.phase(x).releasing()) && p == s.unlock_phase(x)
    }
}

/// Making room for more threads keeps the invariant.
proof fn lemma_with_thread(s: McsState, t: int)
    requires
        s.inv(),
        0 <= t,
    ensures
        s.with_thread(t).inv(),
        t < s.with_thread(t).ph.len(),
        forall|u: int| #[trigger] s.with_thread(t).phase(u) == s.phase(u),
{
    let s2 = s.with_thread(t);
    if t >= s.ph.len() {
        assert forall|u: int| 0 <= u < s.ph.len() implies s2.ph[u] == s.ph[u] by {}
        assert forall|u: int| 0 <= u < s2.ph.len() implies #[trigger] s2.local_ok(u) by {
            if u < s.ph.len() {
                assert(s.local_ok(u));
            }
        }
        assert forall|j: int| 0 <= j < s2.queue.len() implies s2.qnode(j) == s.qnode(j) by {
            assert(s.queue_ok(j));
        }
        assert forall|j: int| 0 <= j < s2.queue.len() implies #[trigger] s2.queue_ok(j) by {
            assert(s.queue_ok(j));
            if j + 1 < s.queue.len() {
                assert(s.queue_ok(j + 1));
            }
        }
    }
}

/// The position of a queued thread in the queue.
proof fn lemma_position(s: McsState, x: int) -> (j: int)
    requires
        s.inv(),
        0 <= x < s.ph.len(),
        s.ph[x].queued(),
    ensures
        0 <= j < s.queue.len(),
        s.queue[j] == x,
        s.queue_ok(j),
        forall|k: int| 0 <= k < s.queue.len() && s.queue[k] == x ==> k == j,
{
    assert(s.local_ok(x));
    let j = choose|j: int| 0 <= j < s.queue.len() && s.queue[j] == x;
    assert(s.queue_ok(j));
    j
}

/// Distinct threads that own nodes own distinct nodes, which do not overlap.
proof fn lemma_nodes_apart(s: McsState, t: int, u: int)
    requires
        s.inv(),
        0 <= t < s.ph.len(),
        0 <= u < s.ph.len(),
        t != u,
        s.ph[t] is Swap || s.ph[t].queued(),
        s.ph[u] is Swap || s.ph[u].queued(),
    ensures
        s.ph[t].node() != s.ph[u].node(),
        s.ph[t].node() + 1 != s.ph[u].node(),
        s.ph[t].node() != s.ph[u].node() + 1,
{
    assert(s.local_ok(t));
    assert(s.local_ok(u));
    if s.ph[t].queued() {
        lemma_position(s, t);
    }
    if s.ph[u].queued() {
        lemma_position(s, u);
    }
}

/// A step that reads memory, or whose compare-and-swap fails, keeps the invariant.
proof fn lemma_step_read(s: McsState, x: int, p: McsPhase)
    requires
        s.inv(),
        0 <= x < s.ph.len(),
        valid_step(s, x, p),
        p is Spin || p is ReadNext || p is AwaitNext || p is Pass || (p is Cas && op_result(
            s.mem,
            p.spec_op(),
        ) != p.node()),
    ensures
        s.step_in(x, p).inv(),
        op_ok(s.mem, p.spec_op()),
{
    let s2 = s.step_in(x, p);
    let r = op_result(s.mem, p.spec_op());
    assert(s.phase(x) == s.ph[x]);
    let jx = lemma_position(s, x);
    let q = p.spec_after(r);
    assert(s2.ph[x] == q);
    assert(s2.mem == s.mem);
    assert(s2.queue == s.queue);
    assert(q.node() == p.node());
    if jx > 0 {
        assert(s.queue_ok(jx - 1));
    }
    if jx + 1 < s.queue.len() {
        assert(s.queue_ok(jx + 1));
    }
    if p is Spin && jx > 0 {
        assert(r == 1);
        assert(q == p);
    }
    assert(q is Spin <==> p is Spin && q == p);
    if jx == 0 && s.queue.len() >= 2 {
        assert(s.queue_ok(1));
        assert(s.qnode(1) >= 1);
    }
    assert(s2.queue_ok(jx));
    if p is Cas {
        let last = s.queue.len() - 1;
        assert(s.queue_ok(last));
        if last == 0 {
            assert(r == p.node());
        } else {
            assert(s.queue[last] != x);
            lemma_nodes_apart(s, x, s.queue[last]);
        }
    }
    assert forall|j: int| 0 <= j < s2.queue.len() implies s2.qnode(j) == s.qnode(j) by {
        assert(s.queue_ok(j));
    }
    assert forall|t: int| 0 <= t < s2.ph.len() implies #[trigger] s2.local_ok(t) by {
        assert(s.local_ok(t));
    }
    assert forall|j: int| 0 <= j < s2.queue.len() implies #[trigger] s2.queue_ok(j) by {
        assert(s.queue_ok(j));
        if j + 1 < s.queue.len() {
            assert(s.queue_ok(j + 1));
        }
        if j == 0 && s.queue.len() >= 2 {
            assert(s.queue_ok(1));
        }
    }
    assert forall|t: int, u: int|
        0 <= t < s2.ph.len() && 0 <= u < s2.ph.len() && t != u && (s2.ph[t] is Swap
            || s2.ph[t].queued()) && (s2.ph[u] is Swap || s2.ph[u].queued()) implies #[trigger] s2.ph[t].node()
        != #[trigger] s2.ph[u].node() by {
        lemma_nodes_apart(s, t, u);
    }
}

/// Locking its own node, or linking itself to its predecessor, keeps the invariant.
proof fn lemma_step_behind(s: McsState, x: int, p: McsPhase)
    requires
        s.inv(),
        0 <= x < s.ph.len(),
        valid_step(s, x, p),
        p is SetLocked || p is Link,
    ensures
        s.step_in(x, p).inv(),
        op_ok(s.mem, p.spec_op()),
{
    let s2 = s.step_in(x, p);
    let r = op_result(s.mem, p.spec_op());
    assert(s.phase(x) == s.ph[x]);
    let jx = lemma_position(s, x);
    let q = p.spec_after(r);
    assert(s2.ph[x] == q);
    assert(s2.queue == s.queue);
    assert(q.node() == p.node());
    assert(jx > 0);
    assert(s.queue_ok(jx - 1));
    let c = p.node();
    let pc = s.qnode(jx - 1);
    assert(s.queue[jx - 1] != x);
    lemma_nodes_apart(s, x, s.queue[jx - 1]);
    // the only written cell belongs to `x`'s node or to its predecessor's
    let w = if p is SetLocked {
        c + 1
    } else {
        pc
    };
    assert(s2.mem == s.mem.update(w, s2.mem[w]));
    assert forall|j: int| 0 <= j < s2.queue.len() implies s2.qnode(j) == s.qnode(j) by {
        assert(s.queue_ok(j));
    }
    assert forall|t: int| 0 <= t < s2.ph.len() implies #[trigger] s2.local_ok(t) by {
        assert(s.local_ok(t));
        if t != x && s.ph[t] is Swap {
            lemma_nodes_apart(s, x, t);
            if p is Link {
                lemma_nodes_apart(s, s.queue[jx - 1], t);
            }
        }
    }
    assert forall|j: int| 0 <= j < s2.queue.len() implies #[trigger] s2.queue_ok(j) by {
        assert(s.queue_ok(j));
        if j + 1 < s.queue.len() {
            assert(s.queue_ok(j + 1));
        }
        if j == 0 && s.queue.len() >= 2 {
            assert(s.queue_ok(1));
        }
        let t = s.queue[j];
        if t != x {
            lemma_nodes_apart(s, x, t);
            if p is Link && j != jx - 1 {
                lemma_nodes_apart(s, s.queue[jx - 1], t);
            }
        }
    }
    assert forall|t: int, u: int|
        0 <= t < s2.ph.len() && 0 <= u < s2.ph.len() && t != u && (s2.ph[t] is Swap
            || s2.ph[t].queued()) && (s2.ph[u] is Swap || s2.ph[u].queued()) implies #[trigger] s2.ph[t].node()
        != #[trigger] s2.ph[u].node() by {
        lemma_nodes_apart(s, t, u);
    }
}

/// Allocating a fresh node keeps the invariant.
proof fn lemma_step_alloc(s: McsState, x: int, p: McsPhase)
    requires
        s.inv(),
        0 <= x < s.ph.len(),
        valid_step(s, x, p),
        p is Alloc,
    ensures
        s.step_in(x, p).inv(),
        op_ok(s.mem, p.spec_op()),
{
    let s2 = s.step_in(x, p);
    let len = s.mem.len() as int;
    assert(s.phase(x) == s.ph[x]);
    assert(s2.ph[x] == McsPhase::Swap(len as usize));
    assert(s2.mem[len] == NULL && s2.mem[len + 1] == 0);
    assert forall|c: int| 0 <= c < len implies s2.mem[c] == s.mem[c] by {}
    assert(s2.queue == s.queue);
    assert(!s.ph[x].queued());
    assert forall|t: int|
        0 <= t < s.ph.len() && t != x && (s.ph[t] is Swap || s.ph[t].queued()) implies s.ph[t].node()
        + 1 < len by {
        assert(s.local_ok(t));
        if s.ph[t].queued() {
            lemma_position(s, t);
        }
    }
    assert forall|j: int| 0 <= j < s2.queue.len() implies s2.qnode(j) == s.qnode(j) by {
        assert(s.queue_ok(j));
    }
    assert forall|t: int| 0 <= t < s2.ph.len() implies #[trigger] s2.local_ok(t) by {
        assert(s.local_ok(t));
    }
    assert forall|j: int| 0 <= j < s2.queue.len() implies #[trigger] s2.queue_ok(j) by {
        assert(s.queue_ok(j));
        if j + 1 < s.queue.len() {
            assert(s.queue_ok(j + 1));
        }
        if j == 0 && s.queue.len() >= 2 {
            assert(s.queue_ok(1));
        }
    }
    if s.queue.len() > 0 {
        assert(s.queue_ok(s.queue.len() - 1));
    }
    assert forall|t: int, u: int|
        0 <= t < s2.ph.len() && 0 <= u < s2.ph.len() && t != u && (s2.ph[t] is Swap
            || s2.ph[t].queued()) && (s2.ph[u] is Swap || s2.ph[u].queued()) implies #[trigger] s2.ph[t].node()
        != #[trigger] s2.ph[u].node() by {
        if t != x && u != x {
            lemma_nodes_apart(s, t, u);
        }
    }
}

/// Swapping its node into the tail keeps the invariant.
proof fn lemma_step_swap(s: McsState, x: int, p: McsPhase)
    requires
        s.inv(),
        0 <= x < s.ph.len(),
        valid_step(s, x, p),
        p is Swap,
    ensures
        s.step_in(x, p).inv(),
        op_ok(s.mem, p.spec_op()),
{
    let s2 = s.step_in(x, p);
    let r = op_result(s.mem, p.spec_op());
    let c = p.node();
    let len = s.queue.len() as int;
    assert(s.phase(x) == s.ph[x]);
    assert(s.local_ok(x));
    let q = p.spec_after(r);
    assert(s2.ph[x] == q);
    assert(s2.queue == s.queue.push(x));
    assert(s2.mem == s.mem.update(TAIL as int, c as usize));
    assert(!s.queue.contains(x)) by {
        if s.queue.contains(x) {
            let j = choose|j: int| 0 <= j < s.queue.len() && s.queue[j] == x;
            assert(s.queue_ok(j));
        }
    }
    if len > 0 {
        assert(s.queue_ok(len - 1));
        assert(r == s.qnode(len - 1));
        assert(r >= 1);
    }
    assert forall|j: int| 0 <= j < len implies s2.qnode(j) == s.qnode(j) && s2.queue[j]
        != x by {
        assert(s.queue_ok(j));
    }
    assert(s2.qnode(len) == c);
    assert forall|t: int| 0 <= t < s2.ph.len() implies #[trigger] s2.local_ok(t) by {
        assert(s.local_ok(t));
        if t != x && s.ph[t].queued() {
            let j = choose|j: int| 0 <= j < s.queue.len() && s.queue[j] == t;
            assert(s2.queue[j] == t);
        }
        if t == x {
            assert(s2.queue[len] == x);
        }
    }
    assert forall|j: int| 0 <= j < s2.queue.len() implies #[trigger] s2.queue_ok(j) by {
        if j < len {
            assert(s.queue_ok(j));
            if j + 1 < len {
                assert(s.queue_ok(j + 1));
            }
            if j == 0 && len >= 2 {
                assert(s.queue_ok(1));
            }
            lemma_nodes_apart(s, x, s.queue[j]);
        }
    }
    assert forall|t: int, u: int|
        0 <= t < s2.ph.len() && 0 <= u < s2.ph.len() && t != u && (s2.ph[t] is Swap
            || s2.ph[t].queued()) && (s2.ph[u] is Swap || s2.ph[u].queued()) implies #[trigger] s2.ph[t].node()
        != #[trigger] s2.ph[u].node() by {
        lemma_nodes_apart(s, t, u);
    }
}

/// Leaving the queue, by clearing the tail or by passing the lock on, keeps the invariant.
proof fn lemma_step_leave(s: McsState, x: int, p: McsPhase)
    requires
        s.inv(),
        0 <= x < s.ph.len(),
        valid_step(s, x, p),
        (p is Cas && op_result(s.mem, p.spec_op()) == p.node()) || p is Handoff,
    ensures
        s.step_in(x, p).inv(),
        op_ok(s.mem, p.spec_op()),
{
    let s2 = s.step_in(x, p);
    let r = op_result(s.mem, p.spec_op());
    assert(s.phase(x) == s.ph[x]);
    let jx = lemma_position(s, x);
    assert(jx == 0);
    let len = s.queue.len() as int;
    assert(s2.ph[x] == McsPhase::Idle);
    assert(s2.queue == s.queue.drop_first());
    if p is Cas {
        if len > 1 {
            assert(s.queue_ok(len - 1));
            assert(s.queue[len - 1] != x);
            lemma_nodes_apart(s, x, s.queue[len - 1]);
        }
        assert(len == 1);
        assert(s2.mem == s.mem.update(TAIL as int, NULL));
        assert(s2.queue.len() == 0);
        assert forall|t: int| 0 <= t < s2.ph.len() implies #[trigger] s2.local_ok(t) by {
            assert(s.local_ok(t));
            if t != x && s.ph[t].queued() {
                let j = lemma_position(s, t);
            }
        }
    } else {
        assert(len >= 2);
        assert(s.queue_ok(1));
        let y = s.queue[1];
        let nx = s.qnode(1);
        assert(p->Handoff_1 == nx);
        assert(s2.mem == s.mem.update(nx + 1, 0));
        assert(y != x);
        lemma_nodes_apart(s, x, y);
        assert forall|j: int| 0 <= j < s2.queue.len() implies s2.queue[j] == s.queue[j + 1]
            && s2.qnode(j) == s.qnode(j + 1) by {
            assert(s.queue_ok(j + 1));
            assert(s.queue[0] != s.queue[j + 1]);
        }
        assert forall|t: int| 0 <= t < s2.ph.len() implies #[trigger] s2.local_ok(t) by {
            assert(s.local_ok(t));
            if t != x && s.ph[t].queued() {
                let j = lemma_position(s, t);
                assert(j != 0);
                assert(s2.queue[j - 1] == t);
            }
            if t != x && t != y && s.ph[t] is Swap {
                lemma_nodes_apart(s, t, y);
            }
        }
        assert forall|j: int| 0 <= j < s2.queue.len() implies #[trigger] s2.queue_ok(j) by {
            assert(s.queue_ok(j + 1));
            assert(s.queue[0] != s.queue[j + 1]);
            if j + 2 < len {
                assert(s.queue_ok(j + 2));
                assert(s.queue[0] != s.queue[j + 2]);
            }
            if j == 0 && len >= 3 {
                assert(s.queue_ok(2));
            }
            if j > 0 {
                assert(s.queue[1] != s.queue[j + 1]);
                lemma_nodes_apart(s, y, s.queue[j + 1]);
            }
        }
        assert(s.queue_ok(len - 1));
    }
    assert forall|t: int, u: int|
        0 <= t < s2.ph.len() && 0 <= u < s2.ph.len() && t != u && (s2.ph[t] is Swap
            || s2.ph[t].queued()) && (s2.ph[u] is Swap || s2.ph[u].queued()) implies #[trigger] s2.ph[t].node()
        != #[trigger] s2.ph[u].node() by {
        lemma_nodes_apart(s, t, u);
    }
}

/// Every step that a thread may take keeps the invariant.
pub proof fn lemma_step_keeps_inv(s: McsState, x: int, p: McsPhase)
    requires
        s.inv(),
        0 <= x < s.ph.len(),
        valid_step(s, x, p),
    ensures
        s.step_in(x, p).inv(),
        op_ok(s.mem, p.spec_op()),
{
    assert(s.phase(x) == s.ph[x]);
    match p {
        McsPhase::Alloc => lemma_step_alloc(s, x, p),
        McsPhase::Swap(_) => lemma_step_swap(s, x, p),
        McsPhase::SetLocked(_, _) => lemma_step_behind(s, x, p),
        McsPhase::Link(_, _) => lemma_step_behind(s, x, p),
        McsPhase::Cas(_) => {
            if op_result(s.mem, p.spec_op()) == p.node() {
                lemma_step_leave(s, x, p);
            } else {
                lemma_step_read(s, x, p);
            }
        },
        McsPhase::Handoff(_, _) => lemma_step_leave(s, x, p),
        McsPhase::Idle => {},
        McsPhase::Critical(_) => {},
        _ => lemma_step_read(s, x, p),
    }
}

/// Mutual exclusion: in a state that satisfies the invariant, two threads
/// in the critical section are one thread.
pub proof fn lemma_mcs_mutual_exclusion(s: McsState, a: int, b: int)
    requires
        s.inv(),
        s.phase(a) is Critical,
        s.phase(b) is Critical,
    ensures
        a == b,
{
    let ja = lemma_position(s, a);
    let jb = lemma_position(s, b);
}

/// A thread that takes the lock alone holds it after at most two steps:
/// it finds the tail empty, or, queued alone, finds its node unlocked.
pub proof fn lemma_mcs_solo_step(s: McsState, x: int)
    requires
        s.inv(),
        0 <= x,
        s.alone(x),
        !s.phase(x).releasing(),
        s.lock_phase(x) is Alloc ==> s.mem.len() + 2 <= usize::MAX,
    ensures
        s.lock_step(x).alone(x),
        s.lock_step(x).phase(x) is Critical || s.lock_step(x).solo_steps(x) < s.solo_steps(x),
{
    if !(s.phase(x) is Critical) {
        let s1 = s.with_thread(x);
        lemma_with_thread(s, x);
        assert(s1.ph[x] == s.phase(x));
        assert forall|j: int| 0 <= j < s1.queue.len() implies s1.queue[j] == x by {
            assert(s1.queue_ok(j));
            assert(s1.phase(s1.queue[j]) == s.phase(s1.queue[j]));
        }
        assert(s1.local_ok(x));
        if s1.ph[x].queued() {
            let j = lemma_position(s1, x);
            if j > 0 {
                assert(s1.queue[j - 1] == x);
            }
            assert(s1.queue_ok(0));
        } else if s1.queue.len() > 0 {
            assert(s1.queue_ok(0));
        }
        lemma_step_keeps_inv(s1, x, s1.lock_phase(x));
        let s2 = s.lock_step(x);
        assert forall|t: int| t != x implies s2.phase(t) == McsPhase::Idle by {
            assert(s1.phase(t) == s.phase(t));
        }
    }
}

/// Threads are served in the order they joined the queue: the first queued
/// thread, spinning, enters the critical section on its next step.
pub proof fn lemma_mcs_first_enters(s: McsState, x: int)
    requires
        s.inv(),
        s.queue.len() > 0,
        s.queue[0] == x,
        s.phase(x) is Spin,
    ensures
        s.lock_step(x).phase(x) is Critical,
{
    assert(s.queue_ok(0));
}

/// A thread that releases the lock alone completes the release in at most
/// two steps: it finds no successor and clears the tail.
pub proof fn lemma_mcs_solo_release(s: McsState, x: int)
    requires
        s.inv(),
        0 <= x < s.ph.len(),
        s.alone(x),
        s.phase(x) is Critical || s.phase(x).releasing(),
    ensures
        s.unlock_step(x).phase(x) == McsPhase::Idle || s.unlock_step(x).release_steps(x)
            < s.release_steps(x),
{
    assert(s.phase(x) == s.ph[x]);
    let j = lemma_position(s, x);
    assert forall|k: int| 0 <= k < s.queue.len() implies s.queue[k] == x by {
        assert(s.queue_ok(k));
        assert(s.phase(s.queue[k]) == s.ph[s.queue[k]]);
    }
    if s.queue.len() > 1 {
        assert(s.queue[1] == x);
        assert(s.queue[0] == x);
    }
    assert(s.queue_ok(0));
    lemma_step_keeps_inv(s, x, s.unlock_phase(x));
}

/// An MCS queue lock, with the protocol state of each thread that has used it.
pub struct MCSLock {
    mem: Memory,
    threads: Vec<McsPhase>,
    queue: Ghost<Seq<int>>,
}

impl View for MCSLock {
    type V = McsState;

    closed spec fn view(&self) -> McsState {
        McsState { mem: self.mem@, ph: self.threads@, queue: self.queue@ }
    }
}

impl MCSLock {
    /// The shared memory of the lock.
    pub fn shared_memory(&self) -> (m: &Memory)
        ensures
            m@ == self@.mem,
    {
        &self.mem
    }

    /// Makes room for the protocol state of thread `tid`.
    fn register(&mut self, tid: usize)
        requires
            old(self)@.inv(),
        ensures
            final(self)@ == old(self)@.with_thread(tid as int),
            tid < final(self).threads.len(),
    {
        let ghost s = self@;
        let ghost len0 = self.threads.len();
        while self.threads.len() <= tid
            invariant
                len0 <= self.threads.len() <= tid + 1 || (len0 == self.threads.len() && len0 > tid),
                len0 == s.ph.len(),
                self.threads@ == s.ph + Seq::new(
                    (self.threads.len() - len0) as nat,
                    |i: int| McsPhase::Idle,
                ),
                self.mem@ == s.mem,
                self.queue@ == s.queue,
            decreases tid + 1 - self.threads.len(),
        {
            self.threads.push(McsPhase::Idle);
            assert(self.threads@ =~= s.ph + Seq::new(
                (self.threads.len() - len0) as nat,
                |i: int| McsPhase::Idle,
            ));
        }
        assert(self@ =~= s.with_thread(tid as int));
    }

    /// Takes one step of thread `tid` in phase `p`.
    fn take_step(&mut self, tid: usize, p: McsPhase)
        requires
            old(self)@.inv(),
            tid < old(self).threads.len(),
            valid_step(old(self)@, tid as int, p),
        ensures
            final(self)@ == old(self)@.step_in(tid as int, p),
            final(self)@.inv(),
    {
        let ghost s = self@;
        proof {
            lemma_step_keeps_inv(s, tid as int, p);
            self.mem.lemma_len_bound();
            match p {
                McsPhase::SetLocked(cur, _) => {
                    let j = lemma_position(s, tid as int);
                },
                McsPhase::Spin(cur, _) => {
                    let j = lemma_position(s, tid as int);
                },
                McsPhase::Handoff(_, _) => {
                    let j = lemma_position(s, tid as int);
                    assert(s.queue_ok(1));
                },
                _ => {},
            }
        }
        let op = p.op();
        let r = self.mem.apply(op);
        let q = p.after(r);
        self.threads.set(tid, q);
        let ghost s2 = s.step_in(tid as int, p);
        self.queue = Ghost(s2.queue);
        assert(self@ == s2);
    }
}

impl RawLock for MCSLock {
    closed spec fn wf(&self) -> bool {
        self@.inv()
    }

    open spec fn holds(&self, tid: int) -> bool {
        self@.phase(tid) is Critical
    }

    open spec fn releasing(&self, tid: int) -> bool {
        self@.phase(tid).releasing()
    }

    open spec fn admits(&self, tid: int) -> bool {
        self@.lock_phase(tid) is Alloc ==> self@.mem.len() + 2 <= usize::MAX
    }

    open spec fn idle(&self, tid: int) -> bool {
        self@.phase(tid) == McsPhase::Idle
    }

    open spec fn release_steps(&self, tid: int) -> nat {
        self@.release_steps(tid)
    }

    open spec fn solo_steps(&self, tid: int) -> nat {
        self@.solo_steps(tid)
    }

    fn create() -> (l: Self)
        ensures
            l@.mem == seq![NULL],
            l@.ph.len() == 0,
            l@.queue.len() == 0,
    {
        let l = MCSLock { mem: Memory::new(1), threads: Vec::new(), queue: Ghost(Seq::empty()) };
        assert(l@.mem =~= seq![NULL]);
        l
    }

    fn lock(&mut self, tid: usize) -> (acquired: bool)
        ensures
            final(self)@ == old(self)@.lock_step(tid as int),
    {
        proof {
            if forall|u: int| u != tid ==> old(self).idle(u) {
                assert forall|u: int| u != tid implies old(self)@.phase(u) == McsPhase::Idle by {
                    assert(old(self).idle(u));
                }
                lemma_mcs_solo_step(old(self)@, tid as int);
            }
        }
        if tid < self.threads.len() && matches!(self.threads[tid], McsPhase::Critical(_)) {
            return true;
        }
        let ghost s0 = self@;
        self.register(tid);
        proof {
            lemma_with_thread(s0, tid as int);
        }
        let p = self.threads[tid].lock_entry();
        self.take_step(tid, p);
        matches!(self.threads[tid], McsPhase::Critical(_))
    }

    fn unlock(&mut self, tid: usize) -> (released: bool)
        ensures
            final(self)@ == old(self)@.unlock_step(tid as int),
    {
        proof {
            if forall|u: int| u != tid ==> old(self).idle(u) {
                assert forall|u: int| u != tid implies old(self)@.phase(u) == McsPhase::Idle by {
                    assert(old(self).idle(u));
                }
                lemma_mcs_solo_release(old(self)@, tid as int);
            }
        }
        let p = self.threads[tid].unlock_entry();
        self.take_step(tid, p);
        self.threads[tid] == McsPhase::Idle
    }

    proof fn lemma_mutual_exclusion(&self, i: int, j: int) {
        lemma_mcs_mutual_exclusion(self@, i, j);
    }

    proof fn lemma_idle(&self, tid: int) {
    }
}

impl Default for MCSLock {
    /// A free lock, as [`RawLock::create`] makes it.
    fn default() -> (l: Self)
        ensures
            l.wf(),
            forall|t: int| !l.holds(t) && !l.releasing(t),
            forall|t: int| l.idle(t),
            l@.mem == seq![NULL],
            l@.ph.len() == 0,
            l@.queue.len() == 0,
    {
        Self::create()
    }
}

} // verus!
