//! The time-out queue lock: a CLH-style queue in which a waiting thread may
//! give up.  A thread appends a fresh locked node by swapping the tail and
//! waits on its predecessor's node; a thread that gives up leaves its node
//! locked and records in it the node it was waiting on, and its successor
//! then skips over it to that node.
use vstd::prelude::*;

use crate::lock::lock::RawLock;
use crate::lock::memory::{op_effect, op_ok, op_result, MemOp, Memory, NULL};

verus! {

/// The cell that points to the last node of the queue (null when empty).
pub const TAIL: usize = 0;

/// The contents of a queue node: the predecessor it records and its lock word.
pub struct ToNode {
    pub pred: usize,
    pub locked: bool,
}

impl ToNode {
    /// A node that records no predecessor, locked.
    pub fn new() -> (node: ToNode)
        ensures
            node.pred == NULL,
            node.locked,
    {
        ToNode { pred: NULL, locked: true }
    }

    /// The operation that allocates this node in shared memory.
    pub fn alloc_op(&self) -> (o: MemOp)
        ensures
            o == MemOp::Alloc(self.pred, if self.locked {
                1
            } else {
                0
            }),
    {
        MemOp::Alloc(self.pred, if self.locked {
            1
        } else {
            0
        })
    }
}

/// Where a thread stands in the protocol of [`ToLock`].  A node `c` has its
/// `pred` pointer in cell `c` and its `locked` word in cell `c + 1`.
#[derive(Clone, Copy, Debug, PartialEq, Eq, Structural)]
pub enum ToPhase {
    /// Not interested in the lock.
    Idle,
    /// About to allocate its node, locked and with no predecessor recorded.
    Alloc,
    /// About to swap its node `.0` into the tail.
    Swap(usize),
    /// With node `.0`, reading the lock word of node `.1`.
    Watch(usize, usize),
    /// With node `.0`, reading the predecessor recorded in node `.1`.
    Hop(usize, usize),
    /// Giving up: about to record node `.1` as the predecessor in its node `.0`.
    Abandon(usize, usize),
    /// In the critical section with node `.0`.
    Critical(usize),
    /// About to unlock its node `.0`.
    Release(usize),
}

impl ToPhase {
    /// The phase in which a thread in this phase takes its next locking step:
    /// an idle thread starts by allocating its node.
    pub open spec fn spec_lock_entry(self) -> ToPhase {
        if self == ToPhase::Idle {
            ToPhase::Alloc
        } else {
            self
        }
    }

    /// The phase in which a thread in this phase takes its next locking step.
    pub fn lock_entry(&self) -> (p: ToPhase)
        ensures
            p == self.spec_lock_entry(),
    {
        if *self == ToPhase::Idle {
            ToPhase::Alloc
        } else {
            *self
        }
    }

    /// The phase in which a thread in this phase takes its next releasing
    /// step: a thread in its critical section starts by unlocking its node.
    pub open spec fn spec_unlock_entry(self) -> ToPhase {
        match self {
            ToPhase::Critical(cur) => ToPhase::Release(cur),
            _ => self,
        }
    }

    /// The phase in which a thread in this phase takes its next releasing step.
    pub fn unlock_entry(&self) -> (p: ToPhase)
        ensures
            p == self.spec_unlock_entry(),
    {
        match *self {
            ToPhase::Critical(cur) => ToPhase::Release(cur),
            _ => *self,
        }
    }

    /// The atomic operation that a thread in this phase performs next.
    pub open spec fn spec_op(self) -> MemOp {
        match self {
            ToPhase::Alloc => MemOp::Alloc(NULL, 1),
            ToPhase::Swap(cur) => MemOp::Swap(TAIL, cur),
            ToPhase::Watch(_, w) => MemOp::Load((w + 1) as usize),
            ToPhase::Hop(_, w) => MemOp::Load(w),
            ToPhase::Abandon(cur, w) => MemOp::Store(cur, w),
            ToPhase::Release(cur) => MemOp::Store((cur + 1) as usize, 0),
            _ => MemOp::Snooze,
        }
    }

    /// The phase after the operation of this phase yielded `r`; `timed_out`
    /// tells whether the caller's time is up, which matters only after
    /// reading a recorded predecessor.
    pub open spec fn spec_after(self, r: usize, timed_out: bool) -> ToPhase {
        match self {
            ToPhase::Alloc => ToPhase::Swap(r),
            ToPhase::Swap(cur) => if r == NULL {
                ToPhase::Critical(cur)
            } else {
                ToPhase::Watch(cur, r)
            },
            ToPhase::Watch(cur, w) => if r == 0 {
                ToPhase::Critical(cur)
            } else {
                ToPhase::Hop(cur, w)
            },
            ToPhase::Hop(cur, w) => {
                let w2 = if r != NULL {
                    r
                } else {
                    w
                };
                if timed_out {
                    ToPhase::Abandon(cur, w2)
                } else {
                    ToPhase::Watch(cur, w2)
                }
            },
            ToPhase::Abandon(_, _) => ToPhase::Idle,
            ToPhase::Release(_) => ToPhase::Idle,
            _ => self,
        }
    }

    /// The atomic operation that a thread in this phase performs next.
    pub fn op(&self) -> (o: MemOp)
        requires
            match *self {
                ToPhase::Watch(_, w) => w < usize::MAX,
                ToPhase::Release(cur) => cur < usize::MAX,
                _ => true,
            },
        ensures
            o == self.spec_op(),
    {
        match self {
            ToPhase::Alloc => ToNode::new().alloc_op(),
            ToPhase::Swap(cur) => MemOp::Swap(TAIL, *cur),
            ToPhase::Watch(_, w) => MemOp::Load(*w + 1),
            ToPhase::Hop(_, w) => MemOp::Load(*w),
            ToPhase::Abandon(cur, w) => MemOp::Store(*cur, *w),
            ToPhase::Release(cur) => MemOp::Store(*cur + 1, 0),
            _ => MemOp::Snooze,
        }
    }

    /// The phase after the operation of this phase yielded `r`.
    pub fn after(&self, r: usize, timed_out: bool) -> (p: ToPhase)
        ensures
            p == self.spec_after(r, timed_out),
    {
        match self {
            ToPhase::Alloc => ToPhase::Swap(r),
            ToPhase::Swap(cur) => if r == NULL {
                ToPhase::Critical(*cur)
            } else {
                ToPhase::Watch(*cur, r)
            },
            ToPhase::Watch(cur, w) => if r == 0 {
                ToPhase::Critical(*cur)
            } else {
                ToPhase::Hop(*cur, *w)
            },
            ToPhase::Hop(cur, w) => {
                let w2 = if r != NULL {
                    r
                } else {
                    *w
                };
                if timed_out {
                    ToPhase::Abandon(*cur, w2)
                } else {
                    ToPhase::Watch(*cur, w2)
                }
            },
            ToPhase::Abandon(_, _) => ToPhase::Idle,
            ToPhase::Release(_) => ToPhase::Idle,
            _ => *self,
        }
    }

    /// The node of a thread in this phase, once it has one.
    pub open spec fn node(self) -> int {
        match self {
            ToPhase::Swap(cur) => cur as int,
            ToPhase::Watch(cur, _) => cur as int,
            ToPhase::Hop(cur, _) => cur as int,
            ToPhase::Abandon(cur, _) => cur as int,
            ToPhase::Critical(cur) => cur as int,
            ToPhase::Release(cur) => cur as int,
            _ => -1,
        }
    }

    /// The node that a thread in this phase waits on.
    pub open spec fn watched(self) -> int {
        match self {
            ToPhase::Watch(_, w) => w as int,
            ToPhase::Hop(_, w) => w as int,
            ToPhase::Abandon(_, w) => w as int,
            _ => -1,
        }
    }

    /// A thread in this phase has swapped its node into the queue.
    pub open spec fn queued(self) -> bool {
        self is Watch || self is Hop || self is Abandon || self is Critical || self is Release
    }

    /// A thread in this phase waits behind other nodes.
    pub open spec fn waiting(self) -> bool {
        self is Watch || self is Hop || self is Abandon
    }
}

/// Every node strictly between positions `k` and `i` of `chain` was given up
/// in memory `mem`.
pub open spec fn skipped_in(mem: Seq<usize>, chain: Seq<int>, k: int, i: int) -> bool {
    forall|m: int| k < m < i ==> (#[trigger] mem[chain[m] + 1]) == 1 && mem[chain[m]] != NULL
}

/// No node before position `i` of `chain` is live in memory `mem`.
pub open spec fn clear_before_in(mem: Seq<usize>, chain: Seq<int>, i: int) -> bool {
    forall|m: int| 0 <= m < i ==> !((#[trigger] mem[chain[m] + 1]) == 1 && mem[chain[m]] == NULL)
}

/// The state of a time-out lock: the memory, every thread's phase, and
/// ghost records: the nodes in the order they were swapped into the tail
/// with their owners and, for each node that was given up, the position of
/// the node it records; and for each thread the position of its node and
/// of the node it waits on.
pub struct ToState {
    /// The tail, then the nodes.
    pub mem: Seq<usize>,
    /// The phase of each thread.
    pub ph: Seq<ToPhase>,
    /// The nodes, in the order they were swapped into the tail.
    pub chain: Seq<int>,
    /// The thread that swapped in each node of the chain.
    pub own: Seq<int>,
    /// For each node given up, the position of the node it records.
    pub link: Seq<int>,
    /// For each thread, the position of its node in the chain.
    pub pos: Seq<int>,
    /// For each waiting thread, the position of the node it waits on.
    pub widx: Seq<int>,
}

impl ToState {
    /// The phase of thread `t`; a thread that never used the lock is idle.
    pub open spec fn phase(self, t: int) -> ToPhase {
        if 0 <= t < self.ph.len() {
            self.ph[t]
        } else {
            ToPhase::Idle
        }
    }

    /// `c` is the first word of an allocated node.
    pub open spec fn is_node(self, c: int) -> bool {
        1 <= c && c + 1 < self.mem.len() && c % 2 == 1
    }

    /// Node `c` is locked and records no predecessor: its owner waits or holds the lock.
    pub open spec fn live(self, c: int) -> bool {
        self.mem[c + 1] == 1 && self.mem[c] == NULL
    }

    /// Node `c` was given up: locked, with a predecessor recorded.
    pub open spec fn abandoned(self, c: int) -> bool {
        self.mem[c + 1] == 1 && self.mem[c] != NULL
    }

    /// Node `c` was unlocked by its owner.
    pub open spec fn released(self, c: int) -> bool {
        self.mem[c + 1] == 0
    }

    /// Every node strictly between positions `k` and `i` of the chain was given up.
    pub open spec fn skipped(self, k: int, i: int) -> bool {
        skipped_in(self.mem, self.chain, k, i)
    }

    /// No node before position `i` of the chain is live.
    pub open spec fn clear_before(self, i: int) -> bool {
        clear_before_in(self.mem, self.chain, i)
    }

    /// What holds of the node at position `i` of the chain.
    pub open spec fn chain_ok(self, i: int) -> bool {
        let c = self.chain[i];
        &&& self.is_node(c)
        &&& self.mem[c + 1] <= 1
        &&& self.live(c) ==> {
            let o = self.own[i];
            &&& 0 <= o < self.ph.len()
            &&& self.ph[o].queued()
            &&& self.ph[o].node() == c
            &&& self.pos[o] == i
        }
        &&& self.abandoned(c) ==> {
            let k = self.link[i];
            &&& 0 <= k < i
            &&& self.chain[k] == self.mem[c]
            &&& self.skipped(k, i)
        }
        &&& self.released(c) ==> self.mem[c] == NULL && self.clear_before(i)
    }

    /// What holds of a single thread.
    pub open spec fn local_ok(self, t: int) -> bool {
        let p = self.ph[t];
        let c = p.node();
        &&& p is Swap ==> self.is_node(c) && self.mem[c] == NULL && self.mem[c + 1] == 1 && forall|
            i: int,
        | 0 <= i < self.chain.len() ==> #[trigger] self.chain[i] != c
        &&& p.queued() ==> {
            let i = self.pos[t];
            &&& 0 <= i < self.chain.len()
            &&& self.chain[i] == c
            &&& self.own[i] == t
            &&& self.live(c)
        }
        &&& p.waiting() ==> {
            let k = self.widx[t];
            &&& 0 <= k < self.pos[t]
            &&& self.chain[k] == p.watched()
            &&& self.skipped(k, self.pos[t])
        }
        &&& (p is Critical || p is Release) ==> self.clear_before(self.pos[t])
    }

    /// The invariant of the time-out lock.
    pub open spec fn inv(self) -> bool {
        &&& 1 <= self.mem.len() <= usize::MAX
        &&& self.mem.len() % 2 == 1
        &&& self.mem[TAIL as int] == (if self.chain.len() == 0 {
            NULL
        } else {
            self.chain[self.chain.len() - 1] as usize
        })
        &&& self.own.len() == self.chain.len()
        &&& self.link.len() == self.chain.len()
        &&& self.pos.len() == self.ph.len()
        &&& self.widx.len() == self.ph.len()
        &&& forall|i: int| 0 <= i < self.chain.len() ==> #[trigger] self.chain_ok(i)
        &&& forall|i: int, j: int|
            0 <= i < j < self.chain.len() ==> #[trigger] self.chain[i] != #[trigger] self.chain[j]
        &&& forall|t: int| 0 <= t < self.ph.len() ==> #[trigger] self.local_ok(t)
        &&& forall|t: int, u: int|
            0 <= t < self.ph.len() && 0 <= u < self.ph.len() && t != u && self.ph[t] is Swap
                && self.ph[u] is Swap ==> #[trigger] self.ph[t].node() != #[trigger] self.ph[u].node()
    }
}

impl ToState {
    /// The state after thread `t` takes one step in phase `p`.
    pub open spec fn step_in(self, t: int, p: ToPhase, timed_out: bool) -> ToState {
        let op = p.spec_op();
        let r = op_result(self.mem, op);
        let n = self.chain.len() as int;
        ToState {
            mem: op_effect(self.mem, op),
            ph: self.ph.update(t, p.spec_after(r, timed_out)),
            chain: if p is Swap {
                self.chain.push(p.node())
            } else {
                self.chain
            },
            own: if p is Swap {
                self.own.push(t)
            } else {
                self.own
            },
            link: if p is Swap {
                self.link.push(0)
            } else if p is Abandon {
                self.link.update(self.pos[t], self.widx[t])
            } else {
                self.link
            },
            pos: if p is Swap {
                self.pos.update(t, n)
            } else {
                self.pos
            },
            widx: if p is Swap {
                self.widx.update(t, n - 1)
            } else if p is Hop && r != NULL {
                self.widx.update(t, self.link[self.widx[t]])
            } else {
                self.widx
            },
        }
    }

    /// The same state with room for the phase of thread `t`.
    pub open spec fn with_thread(self, t: int) -> ToState {
        if t < self.ph.len() {
            self
        } else {
            let k = (t + 1 - self.ph.len()) as nat;
            ToState {
                ph: self.ph + Seq::new(k, |i: int| ToPhase::Idle),
                pos: self.pos + Seq::new(k, |i: int| 0int),
                widx: self.widx + Seq::new(k, |i: int| 0int),
                ..self
            }
        }
    }

    /// The phase in which thread `t` takes its next locking step.
    pub open spec fn lock_phase(self, t: int) -> ToPhase {
        self.phase(t).spec_lock_entry()
    }

    /// The state after one step of thread `t` towards the lock, giving up
    /// if `timed_out` when it reads a recorded predecessor; a thread in its
    /// critical section takes none.
    pub open spec fn try_step(self, t: int, timed_out: bool) -> ToState {
        if self.phase(t) is Critical {
            self
        } else {
            self.with_thread(t).step_in(t, self.lock_phase(t), timed_out)
        }
    }

    /// No thread but `x` is taking or holding the lock.
    pub open spec fn alone(self, x: int) -> bool {
        forall|t: int| t != x ==> self.phase(t) == ToPhase::Idle
    }

    /// The releasing steps that thread `x` still takes: unlocking its node
    /// is the whole release.
    pub open spec fn release_steps(self, x: int) -> nat {
        0
    }

    /// The locking steps that thread `x`, alone, still takes at most before
    /// it holds the lock: it hops back over the nodes given up before its
    /// own, two steps for each, until it watches an unlocked node.
    pub open spec fn solo_steps(self, x: int) -> nat {
        let n = self.chain.len() as int;
        let p = self.phase(x);
        (match p {
            ToPhase::Critical(_) => 0,
            ToPhase::Watch(_, w) => if self.released(w as int) {
                1
            } else {
                2 * self.widx[x] + 2
            },
            ToPhase::Hop(_, w) => if self.released(w as int) {
                2
            } else {
                2 * self.widx[x] + 1
            },
            ToPhase::Swap(_) => 2 * n + 1,
            ToPhase::Abandon(_, _) => 2 * n + 3,
            _ => 2 * n + 2,
        }) as nat
    }

    /// The state after one locking step of thread `t`, which never gives up.
    pub open spec fn lock_step(self, t: int) -> ToState {
        self.try_step(t, false)
    }

    /// The state after the releasing step of thread `t` in its critical section.
    pub open spec fn unlock_step(self, t: int) -> ToState {
        self.step_in(t, self.phase(t).spec_unlock_entry(), false)
    }
}

/// The steps that a thread may take: a locking step, or the releasing step
/// from the critical section; an allocation needs room in memory.
pub open spec fn valid_step(s: ToState, x: int, p: ToPhase) -> bool {
    &&& p is Alloc ==> s.mem.len() + 2 <= usize::MAX
    &&& {
        ||| p == s.lock_phase(x) && !(s.phase(x) is Critical) && !(s.phase(x) is Release)
        ||| s.phase(x) is Critical && p == ToPhase::Release(s.phase(x).node() as usize)
    }
}

/// Distinct nodes do not share a cell.
proof fn lemma_apart(s: ToState, c: int, d: int)
    requires
        s.is_node(c),
        s.is_node(d),
        c != d,
    ensures
        c + 1 != d,
        c != d + 1,
{
}

/// A queued thread's node is at its position in the chain.
proof fn lemma_locate(s: ToState, t: int)
    requires
        s.inv(),
        0 <= t < s.ph.len(),
        s.ph[t].queued(),
    ensures
        0 <= s.pos[t] < s.chain.len(),
        s.chain[s.pos[t]] == s.ph[t].node(),
        s.own[s.pos[t]] == t,
        s.live(s.ph[t].node()),
        s.chain_ok(s.pos[t]),
        s.local_ok(t),
{
    assert(s.local_ok(t));
    assert(s.chain_ok(s.pos[t]));
}

/// Making room for more threads keeps the invariant.
proof fn lemma_with_thread(s: ToState, t: int)
    requires
        s.inv(),
        0 <= t,
    ensures
        s.with_thread(t).inv(),
        t < s.with_thread(t).ph.len(),
        forall|u: int| #[trigger] s.with_thread(t).phase(u) == s.phase(u),
{
    let s2 = s.with_thread(t);
    if t >= s.ph.len() {
        assert forall|u: int| 0 <= u < s.ph.len() implies s2.ph[u] == s.ph[u] && s2.pos[u]
            == s.pos[u] && s2.widx[u] == s.widx[u] by {}
        assert forall|u: int| 0 <= u < s2.ph.len() implies #[trigger] s2.local_ok(u) by {
            if u < s.ph.len() {
                assert(s.local_ok(u));
            }
        }
        assert forall|i: int| 0 <= i < s2.chain.len() implies #[trigger] s2.chain_ok(i) by {
            assert(s.chain_ok(i));
        }
    }
}

/// Facts about the chain carry over to a later memory and a longer chain in
/// which no given-up node was taken back and no node came back to life.
proof fn lemma_keep(mem: Seq<usize>, mem2: Seq<usize>, chain: Seq<int>, chain2: Seq<int>)
    requires
        chain2.len() >= chain.len(),
        forall|m: int| 0 <= m < chain.len() ==> chain2[m] == chain[m],
        forall|m: int|
            0 <= m < chain.len() ==> {
                let c = #[trigger] chain[m];
                &&& (mem[c + 1] == 1 && mem[c] != NULL) ==> (mem2[c + 1] == 1 && mem2[c] != NULL)
                &&& (mem2[c + 1] == 1 && mem2[c] == NULL) ==> (mem[c + 1] == 1 && mem[c] == NULL)
            },
    ensures
        forall|k: int, i: int|
            0 <= k && i <= chain.len() && #[trigger] skipped_in(mem, chain, k, i) ==> skipped_in(
                mem2,
                chain2,
                k,
                i,
            ),
        forall|i: int|
            i <= chain.len() && #[trigger] clear_before_in(mem, chain, i) ==> clear_before_in(
                mem2,
                chain2,
                i,
            ),
{
    assert forall|k: int, i: int|
        0 <= k && i <= chain.len() && #[trigger] skipped_in(mem, chain, k, i) implies skipped_in(
        mem2,
        chain2,
        k,
        i,
    ) by {
        assert forall|m: int| k < m < i implies (#[trigger] mem2[chain2[m] + 1]) == 1
            && mem2[chain2[m]] != NULL by {
            assert(chain2[m] == chain[m]);
            assert(mem[chain[m] + 1] == 1 && mem[chain[m]] != NULL);
        }
    }
    assert forall|i: int|
        i <= chain.len() && #[trigger] clear_before_in(mem, chain, i) implies clear_before_in(
        mem2,
        chain2,
        i,
    ) by {
        assert forall|m: int| 0 <= m < i implies !((#[trigger] mem2[chain2[m] + 1]) == 1
            && mem2[chain2[m]] == NULL) by {
            assert(chain2[m] == chain[m]);
            assert(!(mem[chain[m] + 1] == 1 && mem[chain[m]] == NULL));
        }
    }
}

/// Allocating a fresh node keeps the invariant.
proof fn lemma_step_alloc(s: ToState, x: int, p: ToPhase, timed_out: bool)
    requires
        s.inv(),
        0 <= x < s.ph.len(),
        valid_step(s, x, p),
        p is Alloc,
    ensures
        s.step_in(x, p, timed_out).inv(),
        op_ok(s.mem, p.spec_op()),
{
    let s2 = s.step_in(x, p, timed_out);
    let len = s.mem.len() as int;
    assert(s.phase(x) == s.ph[x]);
    assert(s2.ph[x] == ToPhase::Swap(len as usize));
    assert(s2.mem[len] == NULL && s2.mem[len + 1] == 1);
    assert forall|c: int| 0 <= c < len implies s2.mem[c] == s.mem[c] by {}
    assert forall|i: int| 0 <= i < s.chain.len() implies s.chain[i] + 1 < len by {
        assert(s.chain_ok(i));
    }
    assert forall|m: int| 0 <= m < s.chain.len() implies s2.mem[s.chain[m]] == s.mem[s.chain[m]]
        && s2.mem[s.chain[m] + 1] == s.mem[s.chain[m] + 1] by {
        assert(s.chain_ok(m));
    }
    lemma_keep(s.mem, s2.mem, s.chain, s2.chain);
    assert forall|i: int| 0 <= i < s2.chain.len() implies #[trigger] s2.chain_ok(i) by {
        assert(s.chain_ok(i));
    }
    assert forall|t: int| 0 <= t < s2.ph.len() implies #[trigger] s2.local_ok(t) by {
        assert(s.local_ok(t));
        if t != x && s.ph[t].queued() {
            lemma_locate(s, t);
        }
    }
    assert forall|t: int, u: int|
        0 <= t < s2.ph.len() && 0 <= u < s2.ph.len() && t != u && s2.ph[t] is Swap
            && s2.ph[u] is Swap implies #[trigger] s2.ph[t].node() != #[trigger] s2.ph[u].node() by {
        assert(s.local_ok(t));
        assert(s.local_ok(u));
    }
}

/// Swapping its node into the tail keeps the invariant.
proof fn lemma_step_swap(s: ToState, x: int, p: ToPhase, timed_out: bool)
    requires
        s.inv(),
        0 <= x < s.ph.len(),
        valid_step(s, x, p),
        p is Swap,
    ensures
        s.step_in(x, p, timed_out).inv(),
        op_ok(s.mem, p.spec_op()),
{
    let s2 = s.step_in(x, p, timed_out);
    let cur = p.node();
    let n = s.chain.len() as int;
    assert(s.phase(x) == s.ph[x]);
    assert(s.local_ok(x));
    assert(s2.mem == s.mem.update(TAIL as int, cur as usize));
    assert forall|i: int| 0 <= i < n implies s.chain[i] >= 1 && s.chain[i] != cur by {
        assert(s.chain_ok(i));
    }
    assert forall|m: int| 0 <= m < n implies s2.mem[s.chain[m]] == s.mem[s.chain[m]] && s2.mem[s.chain[m]
        + 1] == s.mem[s.chain[m] + 1] && s2.chain[m] == s.chain[m] by {
        assert(s.chain_ok(m));
    }
    lemma_keep(s.mem, s2.mem, s.chain, s2.chain);
    if n > 0 {
        assert(s.chain_ok(n - 1));
    }
    assert(s2.chain[n] == cur);
    assert forall|i: int| 0 <= i < s2.chain.len() implies #[trigger] s2.chain_ok(i) by {
        if i < n {
            assert(s.chain_ok(i));
            if s.live(s.chain[i]) {
                assert(s.own[i] != x);
            }
        }
    }
    assert forall|t: int| 0 <= t < s2.ph.len() implies #[trigger] s2.local_ok(t) by {
        assert(s.local_ok(t));
        if t != x && s.ph[t].queued() {
            lemma_locate(s, t);
        }
        if t != x && s.ph[t] is Swap {
            assert(s.ph[t].node() != cur);
        }
    }
    assert forall|t: int, u: int|
        0 <= t < s2.ph.len() && 0 <= u < s2.ph.len() && t != u && s2.ph[t] is Swap
            && s2.ph[u] is Swap implies #[trigger] s2.ph[t].node() != #[trigger] s2.ph[u].node() by {
    }
}

/// Reading the lock word or the recorded predecessor of the watched node
/// keeps the invariant.
proof fn lemma_step_read(s: ToState, x: int, p: ToPhase, timed_out: bool)
    requires
        s.inv(),
        0 <= x < s.ph.len(),
        valid_step(s, x, p),
        p is Watch || p is Hop,
    ensures
        s.step_in(x, p, timed_out).inv(),
        op_ok(s.mem, p.spec_op()),
{
    let s2 = s.step_in(x, p, timed_out);
    let r = op_result(s.mem, p.spec_op());
    assert(s.phase(x) == s.ph[x]);
    lemma_locate(s, x);
    let i = s.pos[x];
    let k = s.widx[x];
    let w = p.watched();
    assert(s.chain_ok(k));
    assert(s2.mem == s.mem);
    let q = p.spec_after(r, timed_out);
    assert(s2.ph[x] == q);
    if p is Watch {
        assert(r == s.mem[w + 1]);
        if r == 0 {
            assert(s.clear_before(k));
            assert forall|m: int| 0 <= m < i implies !((#[trigger] s.mem[s.chain[m] + 1]) == 1
                && s.mem[s.chain[m]] == NULL) by {
                if m < k {
                    assert(clear_before_in(s.mem, s.chain, k));
                } else if m > k {
                    assert(skipped_in(s.mem, s.chain, k, i));
                }
            }
            assert(s2.clear_before(i));
        }
    } else {
        assert(r == s.mem[w]);
        if r != NULL {
            assert(s.abandoned(w));
            let k2 = s.link[k];
            assert(s2.widx[x] == k2);
            assert(skipped_in(s.mem, s.chain, k2, k));
            assert forall|m: int| k2 < m < i implies (#[trigger] s.mem[s.chain[m] + 1]) == 1
                && s.mem[s.chain[m]] != NULL by {
                if m < k {
                    assert(skipped_in(s.mem, s.chain, k2, k));
                } else if m > k {
                    assert(skipped_in(s.mem, s.chain, k, i));
                }
            }
            assert(s2.skipped(k2, i));
        }
    }
    assert forall|j: int| 0 <= j < s2.chain.len() implies #[trigger] s2.chain_ok(j) by {
        assert(s.chain_ok(j));
        if s.live(s.chain[j]) && s.own[j] == x {
            assert(j == i);
        }
    }
    assert forall|t: int| 0 <= t < s2.ph.len() implies #[trigger] s2.local_ok(t) by {
        assert(s.local_ok(t));
    }
}

/// Giving up, or unlocking, its own node keeps the invariant.
proof fn lemma_step_retire(s: ToState, x: int, p: ToPhase, timed_out: bool)
    requires
        s.inv(),
        0 <= x < s.ph.len(),
        valid_step(s, x, p),
        p is Abandon || p is Release,
    ensures
        s.step_in(x, p, timed_out).inv(),
        op_ok(s.mem, p.spec_op()),
{
    let s2 = s.step_in(x, p, timed_out);
    assert(s.phase(x) == s.ph[x]);
    lemma_locate(s, x);
    let i = s.pos[x];
    let cur = p.node();
    assert(s.chain[i] == cur);
    assert(s2.ph[x] == ToPhase::Idle);
    if p is Abandon {
        let k = s.widx[x];
        assert(s.chain_ok(k));
        assert(s2.mem == s.mem.update(cur, p.watched() as usize));
        assert(s2.link[i] == k);
    } else {
        assert(s2.mem == s.mem.update(cur + 1, 0));
    }
    assert forall|m: int| 0 <= m < s.chain.len() && s.chain[m] != cur implies s2.mem[s.chain[m]]
        == s.mem[s.chain[m]] && s2.mem[s.chain[m] + 1] == s.mem[s.chain[m] + 1] by {
        assert(s.chain_ok(m));
        lemma_apart(s, cur, s.chain[m]);
    }
    assert forall|m: int| 0 <= m < s.chain.len() implies ({
        let c = #[trigger] s.chain[m];
        &&& (s.mem[c + 1] == 1 && s.mem[c] != NULL) ==> (s2.mem[c + 1] == 1 && s2.mem[c] != NULL)
        &&& (s2.mem[c + 1] == 1 && s2.mem[c] == NULL) ==> (s.mem[c + 1] == 1 && s.mem[c] == NULL)
    }) by {
        assert(s.chain_ok(m));
        if s.chain[m] != cur {
            lemma_apart(s, cur, s.chain[m]);
        }
    }
    lemma_keep(s.mem, s2.mem, s.chain, s2.chain);
    assert forall|j: int| 0 <= j < s2.chain.len() implies #[trigger] s2.chain_ok(j) by {
        assert(s.chain_ok(j));
        if j != i {
            assert(s.chain[j] != cur);
            lemma_apart(s, cur, s.chain[j]);
            if s.live(s.chain[j]) {
                assert(s.own[j] != x);
            }
        } else {
            assert(s.local_ok(x));
        }
    }
    assert forall|t: int| 0 <= t < s2.ph.len() implies #[trigger] s2.local_ok(t) by {
        assert(s.local_ok(t));
        if t != x {
            if s.ph[t].queued() {
                lemma_locate(s, t);
                assert(s.pos[t] != i);
                lemma_apart(s, cur, s.ph[t].node());
            }
            if s.ph[t] is Swap {
                lemma_apart(s, cur, s.ph[t].node());
            }
        }
    }
}

/// Every step that a thread may take keeps the invariant.
pub proof fn lemma_step_keeps_inv(s: ToState, x: int, p: ToPhase, timed_out: bool)
    requires
        s.inv(),
        0 <= x < s.ph.len(),
        valid_step(s, x, p),
    ensures
        s.step_in(x, p, timed_out).inv(),
        op_ok(s.mem, p.spec_op()),
{
    assert(s.phase(x) == s.ph[x]);
    match p {
        ToPhase::Alloc => lemma_step_alloc(s, x, p, timed_out),
        ToPhase::Swap(_) => lemma_step_swap(s, x, p, timed_out),
        ToPhase::Watch(_, _) => lemma_step_read(s, x, p, timed_out),
        ToPhase::Hop(_, _) => lemma_step_read(s, x, p, timed_out),
        ToPhase::Abandon(_, _) => lemma_step_retire(s, x, p, timed_out),
        ToPhase::Release(_) => lemma_step_retire(s, x, p, timed_out),
        _ => {},
    }
}

/// Mutual exclusion: in a state that satisfies the invariant, two threads
/// in the critical section are one thread.
pub proof fn lemma_to_mutual_exclusion(s: ToState, a: int, b: int)
    requires
        s.inv(),
        s.phase(a) is Critical,
        s.phase(b) is Critical,
    ensures
        a == b,
{
    lemma_locate(s, a);
    lemma_locate(s, b);
    if a != b {
        let ia = s.pos[a];
        let ib = s.pos[b];
        assert(ia != ib);
        if ia < ib {
            assert(clear_before_in(s.mem, s.chain, ib));
            assert(!s.live(s.chain[ia]));
        } else {
            assert(clear_before_in(s.mem, s.chain, ia));
            assert(!s.live(s.chain[ib]));
        }
    }
}

/// A thread that takes the lock alone gets closer to it with every step:
/// every node before its own was given up or unlocked, and it hops back
/// over those given up until it watches an unlocked one.
pub proof fn lemma_to_solo_step(s: ToState, x: int)
    requires
        s.inv(),
        0 <= x,
        s.alone(x),
        !(s.phase(x) is Release),
        s.lock_phase(x) is Alloc ==> s.mem.len() + 2 <= usize::MAX,
    ensures
        s.lock_step(x).alone(x),
        s.lock_step(x).phase(x) is Critical || s.lock_step(x).solo_steps(x) < s.solo_steps(x),
{
    if !(s.phase(x) is Critical) {
        let s1 = s.with_thread(x);
        lemma_with_thread(s, x);
        assert(s1.ph[x] == s.phase(x));
        let p = s1.lock_phase(x);
        lemma_step_keeps_inv(s1, x, p, false);
        let s2 = s.lock_step(x);
        assert(s1.local_ok(x));
        if s1.ph[x].waiting() {
            let k = s1.widx[x];
            let w = s1.ph[x].watched();
            assert(s1.chain_ok(k));
            if s1.live(w) {
                let o = s1.own[k];
                assert(s1.phase(o) == s.phase(o));
            }
            assert(s1.solo_steps(x) == s.solo_steps(x));
            if p is Hop && !s1.released(w) {
                let r = s1.mem[w];
                if r != NULL {
                    assert(s1.chain_ok(s1.link[k]));
                }
            }
        }
        assert forall|t: int| t != x implies s2.phase(t) == ToPhase::Idle by {
            assert(s1.phase(t) == s.phase(t));
        }
    }
}

/// A time-out queue lock, with the protocol state of each thread that has used it.
pub struct ToLock {
    mem: Memory,
    threads: Vec<ToPhase>,
    chain: Ghost<Seq<int>>,
    own: Ghost<Seq<int>>,
    link: Ghost<Seq<int>>,
    pos: Ghost<Seq<int>>,
    widx: Ghost<Seq<int>>,
}

impl View for ToLock {
    type V = ToState;

    closed spec fn view(&self) -> ToState {
        ToState {
            mem: self.mem@,
            ph: self.threads@,
            chain: self.chain@,
            own: self.own@,
            link: self.link@,
            pos: self.pos@,
            widx: self.widx@,
        }
    }
}

impl ToLock {
    /// The shared memory of the lock.
    pub fn shared_memory(&self) -> (m: &Memory)
        ensures
            m@ == self@.mem,
    {
        &self.mem
    }

    /// Makes room for the protocol state of thread `tid`.
    fn register(&mut self, tid: usize)
        requires
            old(self)@.inv(),
        ensures
            final(self)@ == old(self)@.with_thread(tid as int),
            tid < final(self).threads.len(),
    {
        let ghost s = self@;
        let ghost len0 = self.threads.len();
        while self.threads.len() <= tid
            invariant
                len0 <= self.threads.len() <= tid + 1 || (len0 == self.threads.len() && len0 > tid),
                len0 == s.ph.len(),
                s.pos.len() == len0,
                s.widx.len() == len0,
                self.threads@ == s.ph + Seq::new(
                    (self.threads.len() - len0) as nat,
                    |i: int| ToPhase::Idle,
                ),
                self.pos@ == s.pos + Seq::new((self.threads.len() - len0) as nat, |i: int| 0int),
                self.widx@ == s.widx + Seq::new((self.threads.len() - len0) as nat, |i: int| 0int),
                self.mem@ == s.mem,
                self.chain@ == s.chain,
                self.own@ == s.own,
                self.link@ == s.link,
            decreases tid + 1 - self.threads.len(),
        {
            self.threads.push(ToPhase::Idle);
            self.pos = Ghost(self.pos@.push(0int));
            self.widx = Ghost(self.widx@.push(0int));
            let ghost k = (self.threads.len() - len0) as nat;
            assert(self.threads@ =~= s.ph + Seq::new(k, |i: int| ToPhase::Idle));
            assert(self.pos@ =~= s.pos + Seq::new(k, |i: int| 0int));
            assert(self.widx@ =~= s.widx + Seq::new(k, |i: int| 0int));
        }
        assert(self@ =~= s.with_thread(tid as int));
    }

    /// Takes one step of thread `tid` in phase `p`.
    fn take_step(&mut self, tid: usize, p: ToPhase, timed_out: bool)
        requires
            old(self)@.inv(),
            tid < old(self).threads.len(),
            valid_step(old(self)@, tid as int, p),
        ensures
            final(self)@ == old(self)@.step_in(tid as int, p, timed_out),
            final(self)@.inv(),
    {
        let ghost s = self@;
        proof {
            lemma_step_keeps_inv(s, tid as int, p, timed_out);
            self.mem.lemma_len_bound();
            assert(s.phase(tid as int) == s.ph[tid as int]);
            if s.ph[tid as int].queued() {
                lemma_locate(s, tid as int);
            }
            if p is Watch {
                assert(s.chain_ok(s.widx[tid as int]));
            }
        }
        let op = p.op();
        let r = self.mem.apply(op);
        let q = p.after(r, timed_out);
        self.threads.set(tid, q);
        let ghost s2 = s.step_in(tid as int, p, timed_out);
        self.chain = Ghost(s2.chain);
        self.own = Ghost(s2.own);
        self.link = Ghost(s2.link);
        self.pos = Ghost(s2.pos);
        self.widx = Ghost(s2.widx);
        assert(self@ == s2);
    }

    /// One step of thread `tid` towards the lock, giving up if `timed_out`
    /// (the caller's time is up) when it reads a recorded predecessor.
    /// Returns `Ok(true)` once `tid` holds the lock, `Err(())` when the step
    /// completed giving up, and `Ok(false)` otherwise; a thread that already
    /// holds the lock changes nothing.
    pub fn try_lock(&mut self, tid: usize, timed_out: bool) -> (res: Result<bool, ()>)
        requires
            self.wf(),
            self.admits(tid as int),
            !self.releasing(tid as int),
        ensures
            final(self).wf(),
            final(self)@ == old(self)@.try_step(tid as int, timed_out),
            old(self).holds(tid as int) ==> *final(self) == *old(self),
            res == Ok::<bool, ()>(true) <==> final(self).holds(tid as int),
            res is Err <==> (!old(self).holds(tid as int) && old(self)@.lock_phase(
                tid as int,
            ) is Abandon),
    {
        if tid < self.threads.len() && matches!(self.threads[tid], ToPhase::Critical(_)) {
            return Ok(true);
        }
        let ghost s0 = self@;
        self.register(tid);
        proof {
            lemma_with_thread(s0, tid as int);
        }
        let p = self.threads[tid].lock_entry();
        self.take_step(tid, p, timed_out);
        if matches!(p, ToPhase::Abandon(_, _)) {
            Err(())
        } else {
            Ok(matches!(self.threads[tid], ToPhase::Critical(_)))
        }
    }
}

impl RawLock for ToLock {
    closed spec fn wf(&self) -> bool {
        &&& self@.inv()
        &&& forall|t: int| 0 <= t < self@.ph.len() ==> !(self@.ph[t] is Release)
    }

    open spec fn holds(&self, tid: int) -> bool {
        self@.phase(tid) is Critical
    }

    open spec fn releasing(&self, tid: int) -> bool {
        self@.phase(tid) is Release
    }

    open spec fn admits(&self, tid: int) -> bool {
        self@.lock_phase(tid) is Alloc ==> self@.mem.len() + 2 <= usize::MAX
    }

    open spec fn idle(&self, tid: int) -> bool {
        self@.phase(tid) == ToPhase::Idle
    }

    open spec fn release_steps(&self, tid: int) -> nat {
        self@.release_steps(tid)
    }

    open spec fn solo_steps(&self, tid: int) -> nat {
        self@.solo_steps(tid)
    }

    fn create() -> (l: Self)
        ensures
            l@.mem == seq![NULL],
            l@.ph.len() == 0,
            l@.chain.len() == 0,
            l@.own.len() == 0,
            l@.link.len() == 0,
            l@.pos.len() == 0,
            l@.widx.len() == 0,
    {
        let l = ToLock {
            mem: Memory::new(1),
            threads: Vec::new(),
            chain: Ghost(Seq::empty()),
            own: Ghost(Seq::empty()),
            link: Ghost(Seq::empty()),
            pos: Ghost(Seq::empty()),
            widx: Ghost(Seq::empty()),
        };
        assert(l@.mem =~= seq![NULL]);
        l
    }

    fn lock(&mut self, tid: usize) -> (acquired: bool)
        ensures
            final(self)@ == old(self)@.lock_step(tid as int),
    {
        proof {
            if forall|u: int| u != tid ==> old(self).idle(u) {
                assert forall|u: int| u != tid implies old(self)@.phase(u) == ToPhase::Idle by {
                    assert(old(self).idle(u));
                }
                lemma_to_solo_step(old(self)@, tid as int);
            }
        }
        match self.try_lock(tid, false) {
            Ok(b) => b,
            Err(_) => false,
        }
    }

    fn unlock(&mut self, tid: usize) -> (released: bool)
        ensures
            final(self)@ == old(self)@.unlock_step(tid as int),
    {
        let p = self.threads[tid].unlock_entry();
        self.take_step(tid, p, false);
        true
    }

    proof fn lemma_mutual_exclusion(&self, i: int, j: int) {
        lemma_to_mutual_exclusion(self@, i, j);
    }

    proof fn lemma_idle(&self, tid: int) {
    }
}

impl Default for ToLock {
    /// A free lock, as [`RawLock::create`] makes it.
    fn default() -> (l: Self)
        ensures
            l.wf(),
            forall|t: int| !l.holds(t) && !l.releasing(t),
            forall|t: int| l.idle(t),
            l@.mem == seq![NULL],
            l@.ph.len() == 0,
            l@.chain.len() == 0,
            l@.own.len() == 0,
            l@.link.len() == 0,
            l@.pos.len() == 0,
            l@.widx.len() == 0,
    {
        Self::create()
    }
}

} // verus!
