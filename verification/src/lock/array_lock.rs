//! The array (Anderson) queue lock: a thread takes a ticket from a counter,
//! spins on the flag of the slot of its ticket, and on release clears its
//! slot and sets the flag of the next one.  With more than `MAX_THREADS`
//! tickets outstanding two threads would share a slot.
use vstd::prelude::*;
use vstd::relations::injective_on;
use vstd::set_lib::{lemma_int_range, lemma_map_size, set_int_range};

use crate::lock::lock::RawLock;
use crate::lock::memory::{op_effect, op_ok, op_result, wrap_add, MemOp, Memory};

verus! {

/// The number of slots, and so of threads that may wait at once.
pub const MAX_THREADS: usize = 20;

/// The cell of the ticket counter; the slot flags are the cells before it.
pub const TAIL: usize = 20;

/// Where a thread stands in the protocol of [`ArrayLock`].
#[derive(Clone, Copy, Debug, PartialEq, Eq, Structural)]
pub enum ArrayPhase {
    /// Not interested in the lock.
    Idle,
    /// About to take a ticket.
    Ticket,
    /// Spinning on the flag of slot `.0`.
    Spin(usize),
    /// In the critical section, in slot `.0`.
    Critical(usize),
    /// About to clear the flag of its slot `.0`.
    Clear(usize),
    /// About to set the flag of the slot after `.0`.
    Pass(usize),
}

impl ArrayPhase {
    /// The phase in which a thread in this phase takes its next locking step:
    /// an idle thread starts by taking a ticket.
    pub open spec fn spec_lock_entry(self) -> ArrayPhase {
        if self == ArrayPhase::Idle {
            ArrayPhase::Ticket
        } else {
            self
        }
    }

    /// The phase in which a thread in this phase takes its next locking step.
    pub fn lock_entry(&self) -> (p: ArrayPhase)
        ensures
            p == self.spec_lock_entry(),
    {
        if *self == ArrayPhase::Idle {
            ArrayPhase::Ticket
        } else {
            *self
        }
    }

    /// The phase in which a thread in this phase takes its next releasing
    /// step: a thread in its critical section starts by clearing its slot.
    pub open spec fn spec_unlock_entry(self) -> ArrayPhase {
        match self {
            ArrayPhase::Critical(idx) => ArrayPhase::Clear(idx),
            _ => self,
        }
    }

    /// The phase in which a thread in this phase takes its next releasing step.
    pub fn unlock_entry(&self) -> (p: ArrayPhase)
        ensures
            p == self.spec_unlock_entry(),
    {
        match *self {
            ArrayPhase::Critical(idx) => ArrayPhase::Clear(idx),
            _ => *self,
        }
    }

    /// The atomic operation that a thread in this phase performs next.
    pub open spec fn spec_op(self) -> MemOp {
        match self {
            ArrayPhase::Ticket => MemOp::FetchAdd(TAIL, 1),
            ArrayPhase::Spin(idx) => MemOp::Load(idx),
            ArrayPhase::Clear(idx) => MemOp::Store(idx, 0),
            ArrayPhase::Pass(idx) => MemOp::Store(((idx + 1) % (MAX_THREADS as int)) as usize, 1),
            _ => MemOp::Snooze,
        }
    }

    /// The phase after the operation of this phase yielded `r`.
    pub open spec fn spec_after(self, r: usize) -> ArrayPhase {
        match self {
            ArrayPhase::Ticket => ArrayPhase::Spin(r % MAX_THREADS),
            ArrayPhase::Spin(idx) => if r == 0 {
                self
            } else {
                ArrayPhase::Critical(idx)
            },
            ArrayPhase::Clear(idx) => ArrayPhase::Pass(idx),
            ArrayPhase::Pass(_) => ArrayPhase::Idle,
            _ => self,
        }
    }

    /// The atomic operation that a thread in this phase performs next.
    pub fn op(&self) -> (o: MemOp)
        requires
            match *self {
                ArrayPhase::Pass(idx) => idx < MAX_THREADS,
                _ => true,
            },
        ensures
            o == self.spec_op(),
    {
        match self {
            ArrayPhase::Ticket => MemOp::FetchAdd(TAIL, 1),
            ArrayPhase::Spin(idx) => MemOp::Load(*idx),
            ArrayPhase::Clear(idx) => MemOp::Store(*idx, 0),
            ArrayPhase::Pass(idx) => MemOp::Store((*idx + 1) % MAX_THREADS, 1),
            _ => MemOp::Snooze,
        }
    }

    /// The phase after the operation of this phase yielded `r`.
    pub fn after(&self, r: usize) -> (p: ArrayPhase)
        ensures
            p == self.spec_after(r),
    {
        match self {
            ArrayPhase::Ticket => ArrayPhase::Spin(r % MAX_THREADS),
            ArrayPhase::Spin(idx) => if r == 0 {
                *self
            } else {
                ArrayPhase::Critical(*idx)
            },
            ArrayPhase::Clear(idx) => ArrayPhase::Pass(*idx),
            ArrayPhase::Pass(_) => ArrayPhase::Idle,
            _ => *self,
        }
    }

    /// A thread in this phase holds a ticket.
    pub open spec fn active(self) -> bool {
        self is Spin || self is Critical || self is Clear || self is Pass
    }

    /// The slot of a thread in this phase.
    pub open spec fn slot(self) -> int {
        match self {
            ArrayPhase::Spin(idx) => idx as int,
            ArrayPhase::Critical(idx) => idx as int,
            ArrayPhase::Clear(idx) => idx as int,
            ArrayPhase::Pass(idx) => idx as int,
            _ => -1,
        }
    }
}

/// The state of an array lock: the memory, every thread's phase, and two
/// ghost records: the ticket each thread drew, and the ticket now served.
pub struct ArrayState {
    /// The slot flags, then the ticket counter.
    pub mem: Seq<usize>,
    /// The phase of each thread.
    pub ph: Seq<ArrayPhase>,
    /// The ticket each thread drew last.
    pub tk: Seq<int>,
    /// The ticket now served.
    pub serving: int,
}

impl ArrayState {
    /// The phase of thread `t`; a thread that never used the lock is idle.
    pub open spec fn phase(self, t: int) -> ArrayPhase {
        if 0 <= t < self.ph.len() {
            self.ph[t]
        } else {
            ArrayPhase::Idle
        }
    }

    /// The next ticket to be drawn.
    pub open spec fn tail(self) -> int {
        self.mem[TAIL as int] as int
    }

    /// The slot of the ticket now served.
    pub open spec fn serving_slot(self) -> int {
        self.serving % (MAX_THREADS as int)
    }

    /// What holds of a single thread.
    pub open spec fn local_ok(self, t: int) -> bool {
        let p = self.ph[t];
        &&& p.active() ==> self.serving <= self.tk[t] < self.tail() && p.slot() == self.tk[t]
            % (MAX_THREADS as int)
        &&& (p is Critical || p is Clear || p is Pass) ==> self.tk[t] == self.serving
        &&& (p is Critical || p is Clear) ==> self.mem[self.serving_slot()] == 1
        &&& p is Pass ==> self.mem[self.serving_slot()] == 0
    }

    /// Some thread holds ticket `k`.
    pub open spec fn ticket_held(self, k: int) -> bool {
        exists|t: int| 0 <= t < self.ph.len() && self.ph[t].active() && #[trigger] self.tk[t] == k
    }

    /// The threads that hold a ticket.
    pub open spec fn ticket_holders(self) -> Set<int> {
        Set::new(|t: int| 0 <= t < self.ph.len() && self.ph[t].active())
    }

    /// The invariant of the array lock.
    pub open spec fn inv(self) -> bool {
        &&& self.mem.len() == MAX_THREADS + 1
        &&& self.tk.len() == self.ph.len()
        &&& 0 <= self.serving <= self.tail() <= self.serving + MAX_THREADS
        &&& forall|j: int|
            0 <= j < MAX_THREADS ==> #[trigger] self.mem[j] <= 1 && (self.mem[j] == 1 ==> j
                == self.serving_slot())
        &&& forall|t: int| 0 <= t < self.ph.len() ==> #[trigger] self.local_ok(t)
        &&& forall|t: int, u: int|
            0 <= t < self.ph.len() && 0 <= u < self.ph.len() && t != u && self.ph[t].active()
                && self.ph[u].active() ==> #[trigger] self.tk[t] != #[trigger] self.tk[u]
        &&& forall|k: int| self.serving <= k < self.tail() ==> #[trigger] self.ticket_held(k)
        &&& self.mem[self.serving_slot()] == 1 || exists|t: int|
            0 <= t < self.ph.len() && #[trigger] self.ph[t] is Pass
    }

    /// No thread but `x` is taking or holding the lock.
    pub open spec fn alone(self, x: int) -> bool {
        forall|t: int| t != x ==> self.phase(t) == ArrayPhase::Idle
    }

    /// The releasing steps that thread `x` still takes: clearing its slot
    /// and setting the next one.
    pub open spec fn release_steps(self, x: int) -> nat {
        match self.phase(x) {
            ArrayPhase::Pass(_) => 1,
            _ => 2,
        }
    }

    /// The locking steps that thread `x`, alone, still takes before it holds
    /// the lock.
    pub open spec fn solo_steps(self, x: int) -> nat {
        match self.phase(x) {
            ArrayPhase::Critical(_) => 0,
            ArrayPhase::Spin(_) => 1,
            _ => 2,
        }
    }

    /// The phase in which thread `t` takes its next locking step.
    pub open spec fn lock_phase(self, t: int) -> ArrayPhase {
        self.phase(t).spec_lock_entry()
    }

    /// The phase in which thread `t` takes its next releasing step.
    pub open spec fn unlock_phase(self, t: int) -> ArrayPhase {
        self.phase(t).spec_unlock_entry()
    }

    /// The state after thread `t` takes one step in phase `p`.
    pub open spec fn step_in(self, t: int, p: ArrayPhase) -> ArrayState {
        let op = p.spec_op();
        let r = op_result(self.mem, op);
        ArrayState {
            mem: op_effect(self.mem, op),
            ph: self.ph.update(t, p.spec_after(r)),
            tk: if p is Ticket {
                self.tk.update(t, r as int)
            } else {
                self.tk
            },
            serving: if p is Pass {
                self.serving + 1
            } else {
                self.serving
            },
        }
    }

    /// The same state with room for the phase of thread `t`.
    pub open spec fn with_thread(self, t: int) -> ArrayState {
        if t < self.ph.len() {
            self
        } else {
            ArrayState {
                ph: self.ph + Seq::new((t + 1 - self.ph.len()) as nat, |i: int| ArrayPhase::Idle),
                tk: self.tk + Seq::new((t + 1 - self.ph.len()) as nat, |i: int| 0int),
                ..self
            }
        }
    }

    /// The state after one locking step of thread `t`; a thread in its
    /// critical section takes none.
    pub open spec fn lock_step(self, t: int) -> ArrayState {
        if self.phase(t) is Critical {
            self
        } else {
            self.with_thread(t).step_in(t, self.lock_phase(t))
        }
    }

    /// The state after one releasing step of thread `t`.
    pub open spec fn unlock_step(self, t: int) -> ArrayState {
        self.step_in(t, self.unlock_phase(t))
    }
}

/// The steps that a thread may take: a locking step, or a releasing step
/// from the critical section or during a release.  A ticket may be drawn
/// only while fewer than `MAX_THREADS` are outstanding and the counter does
/// not wrap around.
pub open spec fn valid_step(s: ArrayState, x: int, p: ArrayPhase) -> bool {
    &&& p is Ticket ==> s.tail() < s.serving + MAX_THREADS && s.tail() < usize::MAX
    &&& {
        ||| p == s.lock_phase(x) && !(s.phase(x) is Critical) && !(s.phase(x) is Clear) && !(s.phase(
            x,
        ) is Pass)
        ||| (s.phase(x) is Critical || s.phase(x) is Clear || s.phase(x) is Pass) && p
            == s.unlock_phase(x)
    }
}

/// Two tickets less than `MAX_THREADS` apart with the same slot are equal.
proof fn lemma_same_slot(a: int, b: int)
    requires
        0 <= b <= a < b + MAX_THREADS,
        a % (MAX_THREADS as int) == b % (MAX_THREADS as int),
    ensures
        a == b,
{
    assert(a == b) by (nonlinear_arith)
        requires
            0 <= b <= a < b + 20,
            a % 20 == b % 20,
    ;
}

/// Making room for more threads keeps the invariant.
proof fn lemma_with_thread(s: ArrayState, t: int)
    requires
        s.inv(),
        0 <= t,
    ensures
        s.with_thread(t).inv(),
        t < s.with_thread(t).ph.len(),
        forall|u: int| #[trigger] s.with_thread(t).phase(u) == s.phase(u),
{
    let s2 = s.with_thread(t);
    if t >= s.ph.len() {
        assert forall|u: int| 0 <= u < s.ph.len() implies s2.ph[u] == s.ph[u] && s2.tk[u]
            == s.tk[u] by {}
        assert forall|u: int| 0 <= u < s2.ph.len() implies #[trigger] s2.local_ok(u) by {
            if u < s.ph.len() {
                assert(s.local_ok(u));
            }
        }
        assert forall|k: int| s2.serving <= k < s2.tail() implies #[trigger] s2.ticket_held(k) by {
            assert(s.ticket_held(k));
            let w = choose|w: int| 0 <= w < s.ph.len() && s.ph[w].active() && s.tk[w] == k;
            assert(s2.tk[w] == k);
        }
        if s.mem[s.serving_slot()] != 1 {
            let w = choose|w: int| 0 <= w < s.ph.len() && #[trigger] s.ph[w] is Pass;
            assert(s2.ph[w] is Pass);
        }
    }
}

/// Every step that a thread may take keeps the invariant.
pub proof fn lemma_step_keeps_inv(s: ArrayState, x: int, p: ArrayPhase)
    requires
        s.inv(),
        0 <= x < s.ph.len(),
        valid_step(s, x, p),
    ensures
        s.step_in(x, p).inv(),
        op_ok(s.mem, p.spec_op()),
{
    let s2 = s.step_in(x, p);
    let r = op_result(s.mem, p.spec_op());
    assert(s.phase(x) == s.ph[x]);
    assert(s.local_ok(x));
    let q = p.spec_after(r);
    assert(s2.ph[x] == q);
    match p {
        ArrayPhase::Ticket => {
            assert(s2.mem == s.mem.update(TAIL as int, (s.tail() + 1) as usize));
            assert(s2.tk[x] == s.tail());
            assert forall|t: int| 0 <= t < s2.ph.len() implies #[trigger] s2.local_ok(t) by {
                assert(s.local_ok(t));
            }
            assert forall|t: int, u: int|
                0 <= t < s2.ph.len() && 0 <= u < s2.ph.len() && t != u && s2.ph[t].active()
                    && s2.ph[u].active() implies #[trigger] s2.tk[t] != #[trigger] s2.tk[u] by {
                assert(s.local_ok(t));
                assert(s.local_ok(u));
            }
        },
        ArrayPhase::Spin(idx) => {
            if r == 1 {
                lemma_same_slot(s.tk[x], s.serving);
            }
            assert forall|t: int| 0 <= t < s2.ph.len() implies #[trigger] s2.local_ok(t) by {
                assert(s.local_ok(t));
            }
        },
        ArrayPhase::Clear(idx) => {
            assert forall|t: int| 0 <= t < s2.ph.len() implies #[trigger] s2.local_ok(t) by {
                assert(s.local_ok(t));
                if t != x && s.ph[t].active() {
                    assert(s.tk[t] != s.tk[x]);
                }
            }
        },
        ArrayPhase::Pass(idx) => {
            let next = (idx + 1) % (MAX_THREADS as int);
            assert(next == (s.serving + 1) % (MAX_THREADS as int));
            assert forall|j: int| 0 <= j < MAX_THREADS implies s.mem[j] == 0 by {}
            assert forall|t: int| 0 <= t < s2.ph.len() implies #[trigger] s2.local_ok(t) by {
                assert(s.local_ok(t));
                if t != x && s.ph[t].active() {
                    assert(s.tk[t] != s.tk[x]);
                }
            }
        },
        _ => {},
    }
    lemma_step_keeps_tickets_held(s, x, p);
    lemma_step_keeps_flag_served(s, x, p);
}

/// After a step, the flag of the slot now served is set, unless a thread is
/// passing the lock on.
proof fn lemma_step_keeps_flag_served(s: ArrayState, x: int, p: ArrayPhase)
    requires
        s.inv(),
        0 <= x < s.ph.len(),
        valid_step(s, x, p),
    ensures
        s.step_in(x, p).mem[s.step_in(x, p).serving_slot()] == 1 || exists|t: int|
            0 <= t < s.step_in(x, p).ph.len() && #[trigger] s.step_in(x, p).ph[t] is Pass,
{
    let s2 = s.step_in(x, p);
    assert(s.phase(x) == s.ph[x]);
    assert(s.local_ok(x));
    match p {
        ArrayPhase::Clear(_) => {
            assert(s2.ph[x] is Pass);
        },
        ArrayPhase::Pass(idx) => {
            assert((idx + 1) % (MAX_THREADS as int) == (s.serving + 1) % (MAX_THREADS as int));
        },
        _ => {
            if s.mem[s.serving_slot()] != 1 {
                let w = choose|w: int| 0 <= w < s.ph.len() && #[trigger] s.ph[w] is Pass;
                assert(w != x);
                assert(s2.ph[w] is Pass);
            }
        },
    }
}

/// Every ticket outstanding after a step is held by some thread.
proof fn lemma_step_keeps_tickets_held(s: ArrayState, x: int, p: ArrayPhase)
    requires
        s.inv(),
        0 <= x < s.ph.len(),
        valid_step(s, x, p),
    ensures
        forall|k: int|
            s.step_in(x, p).serving <= k < s.step_in(x, p).tail() ==> #[trigger] s.step_in(
                x,
                p,
            ).ticket_held(k),
{
    let s2 = s.step_in(x, p);
    assert(s.phase(x) == s.ph[x]);
    assert(s.local_ok(x));
    if p is Ticket {
        assert(s2.tail() == s.tail() + 1);
    }
    assert forall|k: int| s2.serving <= k < s2.tail() implies #[trigger] s2.ticket_held(k) by {
        if p is Ticket && k == s.tail() {
            assert(s2.tk[x] == k);
        } else {
            assert(s.ticket_held(k));
            let w = choose|w: int| 0 <= w < s.ph.len() && s.ph[w].active() && s.tk[w] == k;
            assert(s2.tk[w] == k);
        }
    }
}

/// The thread that holds ticket `k`.
spec fn holder_of(s: ArrayState, k: int) -> int {
    choose|t: int| 0 <= t < s.ph.len() && s.ph[t].active() && s.tk[t] == k
}

/// The tickets outstanding are as many as the threads that hold one, so a
/// ticket may be drawn whenever fewer than `MAX_THREADS` threads hold one:
/// with at most `MAX_THREADS` threads no two ever share a slot.
pub proof fn lemma_array_tickets_outstanding(s: ArrayState)
    requires
        s.inv(),
    ensures
        s.ticket_holders().finite(),
        s.ticket_holders().len() == s.tail() - s.serving,
        s.ticket_holders().len() < MAX_THREADS ==> s.tail() < s.serving + MAX_THREADS,
{
    let tickets = set_int_range(s.serving, s.tail());
    lemma_int_range(s.serving, s.tail());
    let f = |k: int| holder_of(s, k);
    assert forall|k: int| #[trigger] tickets.contains(k) implies 0 <= f(k) < s.ph.len()
        && s.ph[f(k)].active() && s.tk[f(k)] == k by {
        assert(s.ticket_held(k));
    }
    assert(injective_on(f, tickets)) by {
        assert forall|k1: int, k2: int|
            tickets.contains(k1) && tickets.contains(k2) && #[trigger] f(k1) == #[trigger] f(
                k2,
            ) implies k1 == k2 by {}
    }
    let holders = s.ticket_holders();
    assert(tickets.map(f) =~= holders) by {
        assert forall|t: int| holders.contains(t) implies #[trigger] tickets.map(f).contains(t) by {
            assert(s.local_ok(t));
            let k = s.tk[t];
            assert(tickets.contains(k));
            if f(k) != t {
                assert(s.tk[f(k)] == s.tk[t]);
            }
        }
    }
    lemma_map_size(tickets, holders, f);
}

/// A thread that takes the lock alone holds it after at most two steps:
/// it draws the ticket now served and finds the flag of its slot set.
pub proof fn lemma_array_solo_step(s: ArrayState, x: int)
    requires
        s.inv(),
        0 <= x,
        s.alone(x),
        !(s.phase(x) is Clear || s.phase(x) is Pass),
        s.lock_phase(x) is Ticket ==> s.tail() < usize::MAX,
    ensures
        s.lock_step(x).alone(x),
        s.lock_step(x).phase(x) is Critical || s.lock_step(x).solo_steps(x) < s.solo_steps(x),
{
    if !(s.phase(x) is Critical) {
        let s1 = s.with_thread(x);
        lemma_with_thread(s, x);
        lemma_array_tickets_outstanding(s1);
        assert(s1.ph[x] == s.phase(x));
        assert(s1.local_ok(x));
        let holders = s1.ticket_holders();
        assert forall|t: int| t != x implies !#[trigger] holders.contains(t) by {
            if 0 <= t < s1.ph.len() {
                assert(s1.phase(t) == s.phase(t));
            }
        }
        if s.phase(x) is Spin {
            assert(holders =~= set![x]);
            assert(s1.tk[x] == s1.serving);
            if s1.mem[s1.serving_slot()] != 1 {
                let w = choose|w: int| 0 <= w < s1.ph.len() && #[trigger] s1.ph[w] is Pass;
                assert(s1.phase(w) is Pass);
            }
        } else {
            assert(holders =~= Set::<int>::empty());
        }
        lemma_step_keeps_inv(s1, x, s1.lock_phase(x));
        let s2 = s.lock_step(x);
        assert forall|t: int| t != x implies s2.phase(t) == ArrayPhase::Idle by {
            assert(s1.phase(t) == s.phase(t));
        }
    }
}

/// Tickets are served in order: the thread that waits with the ticket now
/// served enters the critical section on its next step.
pub proof fn lemma_array_served_enters(s: ArrayState, x: int)
    requires
        s.inv(),
        0 <= x < s.ph.len(),
        s.ph[x] is Spin,
        s.tk[x] == s.serving,
    ensures
        s.lock_step(x).phase(x) is Critical,
{
    assert(s.phase(x) == s.ph[x]);
    assert(s.local_ok(x));
    if s.mem[s.serving_slot()] != 1 {
        let w = choose|w: int| 0 <= w < s.ph.len() && #[trigger] s.ph[w] is Pass;
        assert(s.local_ok(w));
    }
}

/// Mutual exclusion: in a state that satisfies the invariant, two threads
/// in the critical section are one thread.
pub proof fn lemma_array_mutual_exclusion(s: ArrayState, a: int, b: int)
    requires
        s.inv(),
        s.phase(a) is Critical,
        s.phase(b) is Critical,
    ensures
        a == b,
{
    assert(s.local_ok(a));
    assert(s.local_ok(b));
}

/// An array queue lock with `MAX_THREADS` slots, with the protocol state of
/// each thread that has used it.
pub struct ArrayLock {
    mem: Memory,
    threads: Vec<ArrayPhase>,
    tickets: Ghost<Seq<int>>,
    serving: Ghost<int>,
}

impl View for ArrayLock {
    type V = ArrayState;

    closed spec fn view(&self) -> ArrayState {
        ArrayState {
            mem: self.mem@,
            ph: self.threads@,
            tk: self.tickets@,
            serving: self.serving@,
        }
    }
}

impl ArrayLock {
    /// The shared memory of the lock.
    pub fn shared_memory(&self) -> (m: &Memory)
        ensures
            m@ == self@.mem,
    {
        &self.mem
    }

    /// The ticket counter: the number of tickets drawn so far.
    pub fn tickets_drawn(&self) -> (n: usize)
        requires
            self.wf(),
        ensures
            n == self@.tail(),
    {
        self.mem.read(TAIL)
    }

    /// A thread may start waiting while the ticket counter can still grow
    /// and fewer than `MAX_THREADS` threads hold a ticket, in particular
    /// when every other thread is idle.
    pub proof fn lemma_admits(&self, tid: int)
        requires
            self.wf(),
            self@.tail() < usize::MAX,
            self@.ticket_holders().len() < MAX_THREADS || forall|u: int|
                u != tid ==> self.idle(u),
        ensures
            self.admits(tid),
    {
        let s = self@;
        lemma_array_tickets_outstanding(s);
        if s.lock_phase(tid) is Ticket && !(s.ticket_holders().len() < MAX_THREADS) {
            assert forall|t: int| !#[trigger] s.ticket_holders().contains(t) by {
                if t != tid {
                    assert(self.idle(t));
                    assert(s.phase(t) == ArrayPhase::Idle);
                } else if 0 <= t < s.ph.len() {
                    assert(s.phase(t) == s.ph[t]);
                }
            }
            assert(s.ticket_holders() =~= Set::<int>::empty());
        }
    }

    /// Makes room for the protocol state of thread `tid`.
    fn register(&mut self, tid: usize)
        requires
            old(self)@.inv(),
        ensures
            final(self)@ == old(self)@.with_thread(tid as int),
            tid < final(self).threads.len(),
    {
        let ghost s = self@;
        let ghost len0 = self.threads.len();
        while self.threads.len() <= tid
            invariant
                len0 <= self.threads.len() <= tid + 1 || (len0 == self.threads.len() && len0 > tid),
                len0 == s.ph.len(),
                s.tk.len() == len0,
                self.threads@ == s.ph + Seq::new(
                    (self.threads.len() - len0) as nat,
                    |i: int| ArrayPhase::Idle,
                ),
                self.tickets@ == s.tk + Seq::new(
                    (self.threads.len() - len0) as nat,
                    |i: int| 0int,
                ),
                self.mem@ == s.mem,
                self.serving@ == s.serving,
            decreases tid + 1 - self.threads.len(),
        {
            self.threads.push(ArrayPhase::Idle);
            self.tickets = Ghost(self.tickets@.push(0int));
            assert(self.threads@ =~= s.ph + Seq::new(
                (self.threads.len() - len0) as nat,
                |i: int| ArrayPhase::Idle,
            ));
            assert(self.tickets@ =~= s.tk + Seq::new(
                (self.threads.len() - len0) as nat,
                |i: int| 0int,
            ));
        }
        assert(self@ =~= s.with_thread(tid as int));
    }

    /// Takes one step of thread `tid` in phase `p`.
    fn take_step(&mut self, tid: usize, p: ArrayPhase)
        requires
            old(self)@.inv(),
            tid < old(self).threads.len(),
            valid_step(old(self)@, tid as int, p),
        ensures
            final(self)@ == old(self)@.step_in(tid as int, p),
            final(self)@.inv(),
    {
        let ghost s = self@;
        proof {
            lemma_step_keeps_inv(s, tid as int, p);
            assert(s.phase(tid as int) == s.ph[tid as int]);
            assert(s.local_ok(tid as int));
        }
        let op = p.op();
        let r = self.mem.apply(op);
        let q = p.after(r);
        self.threads.set(tid, q);
        let ghost s2 = s.step_in(tid as int, p);
        self.tickets = Ghost(s2.tk);
        self.serving = Ghost(s2.serving);
        assert(self@ == s2);
    }
}

impl RawLock for ArrayLock {
    closed spec fn wf(&self) -> bool {
        self@.inv()
    }

    open spec fn holds(&self, tid: int) -> bool {
        self@.phase(tid) is Critical
    }

    open spec fn releasing(&self, tid: int) -> bool {
        self@.phase(tid) is Clear || self@.phase(tid) is Pass
    }

    /// A thread may start waiting only while fewer than `MAX_THREADS`
    /// tickets are outstanding, and the ticket counter does not wrap around.
    open spec fn admits(&self, tid: int) -> bool {
        self@.lock_phase(tid) is Ticket ==> self@.tail() < self@.serving + MAX_THREADS
            && self@.tail() < usize::MAX
    }

    open spec fn idle(&self, tid: int) -> bool {
        self@.phase(tid) == ArrayPhase::Idle
    }

    open spec fn release_steps(&self, tid: int) -> nat {
        self@.release_steps(tid)
    }

    open spec fn solo_steps(&self, tid: int) -> nat {
        self@.solo_steps(tid)
    }

    fn create() -> (l: Self)
        ensures
            l@.mem == Seq::new((MAX_THREADS + 1) as nat, |i: int| if i == 0 {
                1usize
            } else {
                0usize
            }),
            l@.ph.len() == 0,
            l@.tk.len() == 0,
            l@.serving == 0,
    {
        let mut mem = Memory::new(MAX_THREADS + 1);
        mem.write(0, 1);
        let l = ArrayLock {
            mem,
            threads: Vec::new(),
            tickets: Ghost(Seq::empty()),
            serving: Ghost(0),
        };
        assert(l@.mem =~= Seq::new((MAX_THREADS + 1) as nat, |i: int| if i == 0 {
            1usize
        } else {
            0usize
        }));
        l
    }

    fn lock(&mut self, tid: usize) -> (acquired: bool)
        ensures
            final(self)@ == old(self)@.lock_step(tid as int),
    {
        proof {
            if forall|u: int| u != tid ==> old(self).idle(u) {
                assert forall|u: int| u != tid implies old(self)@.phase(u) == ArrayPhase::Idle by {
                    assert(old(self).idle(u));
                }
                lemma_array_solo_step(old(self)@, tid as int);
            }
        }
        if tid < self.threads.len() && matches!(self.threads[tid], ArrayPhase::Critical(_)) {
            return true;
        }
        let ghost s0 = self@;
        self.register(tid);
        proof {
            lemma_with_thread(s0, tid as int);
        }
        let p = self.threads[tid].lock_entry();
        self.take_step(tid, p);
        matches!(self.threads[tid], ArrayPhase::Critical(_))
    }

    fn unlock(&mut self, tid: usize) -> (released: bool)
        ensures
            final(self)@ == old(self)@.unlock_step(tid as int),
    {
        let p = self.threads[tid].unlock_entry();
        self.take_step(tid, p);
        self.threads[tid] == ArrayPhase::Idle
    }

    proof fn lemma_mutual_exclusion(&self, i: int, j: int) {
        lemma_array_mutual_exclusion(self@, i, j);
    }

    proof fn lemma_idle(&self, tid: int) {
    }
}

impl Default for ArrayLock {
    /// A free lock, as [`RawLock::create`] makes it.
    fn default() -> (l: Self)
        ensures
            l.wf(),
            forall|t: int| !l.holds(t) && !l.releasing(t),
            forall|t: int| l.idle(t),
            l@.mem == Seq::new((MAX_THREADS + 1) as nat, |i: int| if i == 0 {
                1usize
            } else {
                0usize
            }),
            l@.ph.len() == 0,
            l@.tk.len() == 0,
            l@.serving == 0,
    {
        Self::create()
    }
}

} // verus!
