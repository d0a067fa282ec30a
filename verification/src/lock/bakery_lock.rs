//! Lamport's bakery lock in the form with an interest flag per thread: a
//! thread raises its flag, takes a label one above every label it reads,
//! and waits until every other interested thread holds a larger label (ties
//! go to the larger thread number).
use vstd::prelude::*;

use crate::lock::memory::{op_effect, op_ok, op_result, MemOp, Memory};

verus! {

/// Where a thread stands in the protocol of [`BakeryLock`].
#[derive(Clone, Copy, Debug, PartialEq, Eq, Structural)]
pub enum BakeryPhase {
    /// Not interested in the lock.
    Idle,
    /// About to raise its flag.
    Raise,
    /// Reading the label of thread `.0`; `.1` is the largest label read so far.
    Scan(usize, usize),
    /// About to publish its label `.0`.
    Take(usize),
    /// With label `.1`, reading the flag of thread `.0`.
    Check(usize, usize),
    /// With label `.1`, reading the label of thread `.0` (is it smaller?).
    Compare(usize, usize),
    /// With label `.1`, reading the label of thread `.0` again (is it equal?).
    Tie(usize, usize),
    /// In the critical section with label `.0`.
    Critical(usize),
    /// About to lower its flag.
    Lower,
}

/// The cell of thread `i`'s flag.
pub open spec fn flag_cell(i: int) -> int {
    i
}

/// The cell of thread `i`'s label, among `n` threads.
pub open spec fn label_cell(n: int, i: int) -> int {
    n + i
}

/// The phase of thread `id` that checks positions from `i` on, with label `t`:
/// its own position is skipped, and past the last position it holds the lock.
pub open spec fn check_from(i: usize, t: usize, id: usize, n: usize) -> BakeryPhase {
    if i == id {
        if i + 1 >= n {
            BakeryPhase::Critical(t)
        } else {
            BakeryPhase::Check((i + 1) as usize, t)
        }
    } else if i >= n {
        BakeryPhase::Critical(t)
    } else {
        BakeryPhase::Check(i, t)
    }
}

/// The phase of thread `id` that checks positions from `i` on, with label `t`.
fn exec_check_from(i: usize, t: usize, id: usize, n: usize) -> (p: BakeryPhase)
    requires
        i <= n,
        id < n,
    ensures
        p == check_from(i, t, id, n),
{
    if i == id {
        if i + 1 >= n {
            BakeryPhase::Critical(t)
        } else {
            BakeryPhase::Check(i + 1, t)
        }
    } else if i >= n {
        BakeryPhase::Critical(t)
    } else {
        BakeryPhase::Check(i, t)
    }
}

/// The larger of two words.
pub open spec fn max_word(a: usize, b: usize) -> usize {
    if a < b {
        b
    } else {
        a
    }
}

impl BakeryPhase {
    /// The phase in which a thread in this phase takes its next locking step:
    /// an idle thread starts by raising its flag.
    pub open spec fn spec_lock_entry(self) -> BakeryPhase {
        if self == BakeryPhase::Idle {
            BakeryPhase::Raise
        } else {
            self
        }
    }

    /// The phase in which a thread in this phase takes its next locking step.
    pub fn lock_entry(&self) -> (p: BakeryPhase)
        ensures
            p == self.spec_lock_entry(),
    {
        if *self == BakeryPhase::Idle {
            BakeryPhase::Raise
        } else {
            *self
        }
    }

    /// The phase in which a thread in this phase takes its next releasing
    /// step: a thread in its critical section starts by lowering its flag.
    pub open spec fn spec_unlock_entry(self) -> BakeryPhase {
        match self {
            BakeryPhase::Critical(_) => BakeryPhase::Lower,
            _ => self,
        }
    }

    /// The phase in which a thread in this phase takes its next releasing step.
    pub fn unlock_entry(&self) -> (p: BakeryPhase)
        ensures
            p == self.spec_unlock_entry(),
    {
        match *self {
            BakeryPhase::Critical(_) => BakeryPhase::Lower,
            _ => *self,
        }
    }

    /// The atomic operation that thread `id` of `n` performs next in this phase.
    pub open spec fn spec_op(self, id: usize, n: usize) -> MemOp {
        match self {
            BakeryPhase::Raise => MemOp::Store(id, 1),
            BakeryPhase::Scan(j, _) => MemOp::Load((n + j) as usize),
            BakeryPhase::Take(t) => MemOp::Store((n + id) as usize, t),
            BakeryPhase::Check(i, _) => MemOp::Load(i),
            BakeryPhase::Compare(i, _) => MemOp::Load((n + i) as usize),
            BakeryPhase::Tie(i, _) => MemOp::Load((n + i) as usize),
            BakeryPhase::Lower => MemOp::Store(id, 0),
            _ => MemOp::Snooze,
        }
    }

    /// The phase of thread `id` of `n` after its operation yielded `r`.
    pub open spec fn spec_after(self, r: usize, id: usize, n: usize) -> BakeryPhase {
        match self {
            BakeryPhase::Raise => BakeryPhase::Scan(0, 0),
            BakeryPhase::Scan(j, m) => {
                let m2 = max_word(m, r);
                if j + 1 < n {
                    BakeryPhase::Scan((j + 1) as usize, m2)
                } else {
                    BakeryPhase::Take((m2 + 1) as usize)
                }
            },
            BakeryPhase::Take(t) => check_from(0, t, id, n),
            BakeryPhase::Check(i, t) => if r == 0 {
                check_from((i + 1) as usize, t, id, n)
            } else {
                BakeryPhase::Compare(i, t)
            },
            BakeryPhase::Compare(i, t) => if r < t {
                BakeryPhase::Check(i, t)
            } else {
                BakeryPhase::Tie(i, t)
            },
            BakeryPhase::Tie(i, t) => if r == t && id < i {
                BakeryPhase::Check(i, t)
            } else {
                check_from((i + 1) as usize, t, id, n)
            },
            BakeryPhase::Lower => BakeryPhase::Idle,
            _ => self,
        }
    }

    /// Taking the operation of this phase, which yielded `r`, would overflow a label.
    pub open spec fn overflows(self, r: usize, n: usize) -> bool {
        match self {
            BakeryPhase::Scan(j, m) => j + 1 >= n && max_word(m, r) == usize::MAX,
            _ => false,
        }
    }

    /// The atomic operation that thread `id` of `n` performs next in this phase.
    pub fn op(&self, id: usize, n: usize) -> (o: MemOp)
        requires
            id < n,
            n + n <= usize::MAX,
            match *self {
                BakeryPhase::Scan(j, _) => j < n,
                BakeryPhase::Compare(i, _) => i < n,
                BakeryPhase::Tie(i, _) => i < n,
                _ => true,
            },
        ensures
            o == self.spec_op(id, n),
    {
        match self {
            BakeryPhase::Raise => MemOp::Store(id, 1),
            BakeryPhase::Scan(j, _) => MemOp::Load(n + *j),
            BakeryPhase::Take(t) => MemOp::Store(n + id, *t),
            BakeryPhase::Check(i, _) => MemOp::Load(*i),
            BakeryPhase::Compare(i, _) => MemOp::Load(n + *i),
            BakeryPhase::Tie(i, _) => MemOp::Load(n + *i),
            BakeryPhase::Lower => MemOp::Store(id, 0),
            _ => MemOp::Snooze,
        }
    }

    /// The phase of thread `id` of `n` after the operation of this phase yielded `r`.
    pub fn after(&self, r: usize, id: usize, n: usize) -> (p: BakeryPhase)
        requires
            id < n,
            !self.overflows(r, n),
            match *self {
                BakeryPhase::Check(i, _) => i < n,
                BakeryPhase::Tie(i, _) => i < n,
                BakeryPhase::Scan(j, _) => j < n,
                _ => true,
            },
        ensures
            p == self.spec_after(r, id, n),
    {
        match self {
            BakeryPhase::Raise => BakeryPhase::Scan(0, 0),
            BakeryPhase::Scan(j, m) => {
                let m2 = if *m < r {
                    r
                } else {
                    *m
                };
                if *j + 1 < n {
                    BakeryPhase::Scan(*j + 1, m2)
                } else {
                    BakeryPhase::Take(m2 + 1)
                }
            },
            BakeryPhase::Take(t) => exec_check_from(0, *t, id, n),
            BakeryPhase::Check(i, t) => if r == 0 {
                exec_check_from(*i + 1, *t, id, n)
            } else {
                BakeryPhase::Compare(*i, *t)
            },
            BakeryPhase::Compare(i, t) => if r < *t {
                BakeryPhase::Check(*i, *t)
            } else {
                BakeryPhase::Tie(*i, *t)
            },
            BakeryPhase::Tie(i, t) => if r == *t && id < *i {
                BakeryPhase::Check(*i, *t)
            } else {
                exec_check_from(*i + 1, *t, id, n)
            },
            BakeryPhase::Lower => BakeryPhase::Idle,
            _ => *self,
        }
    }
}

/// The state of a bakery lock: the shared flags and labels, and the phase
/// of every thread.
pub struct BakeryState {
    /// The number of threads.
    pub n: usize,
    /// The flags, then the labels.
    pub mem: Seq<usize>,
    /// The phase of each thread.
    pub ph: Seq<BakeryPhase>,
}

impl BakeryState {
    /// The flag of thread `i`.
    pub open spec fn fl(self, i: int) -> usize {
        self.mem[flag_cell(i)]
    }

    /// The label of thread `i`.
    pub open spec fn lb(self, i: int) -> usize {
        self.mem[label_cell(self.n as int, i)]
    }

    /// The phase in which thread `id` takes its next locking step.
    pub open spec fn lock_phase(self, id: int) -> BakeryPhase {
        self.ph[id].spec_lock_entry()
    }

    /// The state after thread `id` takes one step in phase `p`.
    pub open spec fn step_in(self, id: int, p: BakeryPhase) -> BakeryState {
        let op = p.spec_op(id as usize, self.n);
        BakeryState {
            n: self.n,
            mem: op_effect(self.mem, op),
            ph: self.ph.update(id, p.spec_after(op_result(self.mem, op), id as usize, self.n)),
        }
    }

    /// The state after one locking step of thread `id`; a thread in its
    /// critical section takes none.
    pub open spec fn lock_step(self, id: int) -> BakeryState {
        if self.ph[id] is Critical {
            self
        } else {
            self.step_in(id, self.lock_phase(id))
        }
    }

    /// The state after one releasing step of thread `id`.
    pub open spec fn unlock_step(self, id: int) -> BakeryState {
        self.step_in(id, self.ph[id].spec_unlock_entry())
    }

    /// The next locking step of thread `id` would overflow a label.
    pub open spec fn lock_overflows(self, id: int) -> bool {
        let p = self.lock_phase(id);
        p.overflows(op_result(self.mem, p.spec_op(id as usize, self.n)), self.n)
    }

    /// Thread `a` has checked thread `b` in its waiting loop, or is past it.
    pub open spec fn passed(self, a: int, b: int) -> bool {
        match self.ph[a] {
            BakeryPhase::Check(i, _) => i > b,
            BakeryPhase::Compare(i, _) => i > b,
            BakeryPhase::Tie(i, _) => i > b,
            BakeryPhase::Critical(_) => true,
            BakeryPhase::Lower => true,
            _ => false,
        }
    }

    /// Thread `a` goes before thread `b`: a smaller label, or the larger
    /// number on equal labels.
    pub open spec fn prec(self, a: int, b: int) -> bool {
        self.lb(a) < self.lb(b) || (self.lb(a) == self.lb(b) && a > b)
    }

    /// Thread `b` cannot overtake thread `a`.
    pub open spec fn behind(self, b: int, a: int) -> bool {
        match self.ph[b] {
            BakeryPhase::Idle => true,
            BakeryPhase::Raise => true,
            BakeryPhase::Scan(j, m) => j <= a || m >= self.lb(a) || (j <= b && self.lb(b) >= self.lb(
                a,
            )),
            BakeryPhase::Take(t) => t > self.lb(a),
            BakeryPhase::Check(i, _) => i <= a && self.prec(a, b),
            BakeryPhase::Compare(i, _) => i <= a && self.prec(a, b),
            BakeryPhase::Tie(i, _) => i <= a && self.prec(a, b),
            _ => false,
        }
    }

    /// What holds of one thread's phase and its own cells.
    pub open spec fn local_ok(self, a: int) -> bool {
        let n = self.n as int;
        &&& self.fl(a) == (if self.ph[a] == BakeryPhase::Idle || self.ph[a] == BakeryPhase::Raise {
            0usize
        } else {
            1usize
        })
        &&& match self.ph[a] {
            BakeryPhase::Scan(j, m) => j < n && (j > a ==> m >= self.lb(a)),
            BakeryPhase::Take(t) => t > self.lb(a),
            BakeryPhase::Check(i, t) => i < n && i != a && t == self.lb(a),
            BakeryPhase::Compare(i, t) => i < n && i != a && t == self.lb(a),
            BakeryPhase::Tie(i, t) => i < n && i != a && t == self.lb(a) && self.lb(i as int) >= t,
            BakeryPhase::Critical(t) => t == self.lb(a),
            _ => true,
        }
    }

    /// No thread but `id` is taking or holding the lock.
    pub open spec fn alone(self, id: int) -> bool {
        forall|t: int| 0 <= t < self.n && t != id ==> self.ph[t] == BakeryPhase::Idle
    }

    /// The locking steps that thread `id`, alone, still takes at most before
    /// it holds the lock: the rest of its reading of labels, the publishing
    /// of its label, and for every position left to check one read of a
    /// flag, or up to two more reads of a label and a flag.
    pub open spec fn solo_steps(self, id: int) -> nat {
        let n = self.n as int;
        (match self.ph[id] {
            BakeryPhase::Critical(_) => 0,
            BakeryPhase::Check(i, _) => 3 * (n - i) - 2,
            BakeryPhase::Tie(i, _) => 3 * (n - i) - 1,
            BakeryPhase::Compare(i, _) => 3 * (n - i),
            BakeryPhase::Take(_) => 3 * n,
            BakeryPhase::Scan(j, _) => 3 * n + (n - j),
            _ => 4 * n + 1,
        }) as nat
    }

    /// The invariant of the bakery lock.
    pub open spec fn inv(self) -> bool {
        &&& self.ph.len() == self.n
        &&& self.mem.len() == self.n + self.n
        &&& self.n + self.n <= usize::MAX
        &&& forall|a: int| 0 <= a < self.n ==> #[trigger] self.local_ok(a)
        &&& forall|a: int, b: int|
            0 <= a < self.n && 0 <= b < self.n && a != b && #[trigger] self.passed(a, b)
                ==> self.behind(b, a)
    }
}

/// `check_from` lands on a position not before `i`, or in the critical section.
proof fn lemma_check_from(i: usize, t: usize, id: usize, n: usize)
    requires
        i <= n,
        id < n,
    ensures
        match check_from(i, t, id, n) {
            BakeryPhase::Check(k, t2) => i <= k < n && k != id && t2 == t && (k > i ==> i == id),
            BakeryPhase::Critical(t2) => t2 == t && (i >= n || (i == id && i + 1 >= n)),
            _ => false,
        },
{
}

/// The phase that a locking step starts from, and the state it leads to.
proof fn lemma_step_shape(s: BakeryState, x: int, p: BakeryPhase)
    requires
        s.inv(),
        0 <= x < s.n,
        p == s.ph[x] || (p == BakeryPhase::Raise && s.ph[x] == BakeryPhase::Idle) || (p
            == BakeryPhase::Lower && s.ph[x] is Critical),
        !(p is Critical),
        !(p is Idle),
    ensures
        op_ok(s.mem, p.spec_op(x as usize, s.n)),
        s.step_in(x, p).mem.len() == s.mem.len(),
        forall|c: int|
            0 <= c < s.mem.len() && c != flag_cell(x) && c != label_cell(s.n as int, x)
                ==> #[trigger] s.step_in(x, p).mem[c] == s.mem[c],
{
    assert(s.local_ok(x));
}

/// The steps that a thread may take: a locking step that does not overflow,
/// or the releasing step from the critical section.
pub open spec fn valid_step(s: BakeryState, x: int, p: BakeryPhase) -> bool {
    ||| p == s.lock_phase(x) && !(s.ph[x] is Critical) && !s.lock_overflows(x)
    ||| p == BakeryPhase::Lower && s.ph[x] is Critical
}

/// A thread's own label never decreases.
proof fn lemma_label_grows(s: BakeryState, x: int, p: BakeryPhase)
    requires
        s.inv(),
        0 <= x < s.n,
        valid_step(s, x, p),
    ensures
        s.step_in(x, p).lb(x) >= s.lb(x),
        !(p is Take) ==> s.step_in(x, p).lb(x) == s.lb(x),
{
    lemma_step_shape(s, x, p);
    assert(s.local_ok(x));
}

/// One step of thread `x` keeps what holds of thread `a` and its own cells.
proof fn lemma_local(s: BakeryState, x: int, p: BakeryPhase, a: int)
    requires
        s.inv(),
        0 <= x < s.n,
        0 <= a < s.n,
        valid_step(s, x, p),
    ensures
        s.step_in(x, p).local_ok(a),
{
    let s2 = s.step_in(x, p);
    let n = s.n;
    lemma_step_shape(s, x, p);
    lemma_label_grows(s, x, p);
    assert(s.local_ok(a));
    assert(s.local_ok(x));
    let r = op_result(s.mem, p.spec_op(x as usize, n));
    if a == x {
        assert(s2.ph[x] == p.spec_after(r, x as usize, n));
        match p {
            BakeryPhase::Raise => {},
            BakeryPhase::Scan(j, m) => {
                assert(r == s.lb(j as int));
            },
            BakeryPhase::Take(t) => {
                lemma_check_from(0, t, x as usize, n);
            },
            BakeryPhase::Check(i, t) => {
                lemma_check_from((i + 1) as usize, t, x as usize, n);
            },
            BakeryPhase::Compare(i, t) => {},
            BakeryPhase::Tie(i, t) => {
                lemma_check_from((i + 1) as usize, t, x as usize, n);
            },
            BakeryPhase::Lower => {},
            _ => {},
        }
    } else {
        assert(s2.ph[a] == s.ph[a]);
        assert(s2.fl(a) == s.fl(a));
        assert(s2.lb(a) == s.lb(a));
        match s.ph[a] {
            BakeryPhase::Tie(i, t) => {
                if i as int != x {
                    assert(s2.lb(i as int) == s.lb(i as int));
                }
            },
            _ => {},
        }
    }
}

/// One step of thread `x` keeps the order between threads `a` and `b`.
proof fn lemma_pair(s: BakeryState, x: int, p: BakeryPhase, a: int, b: int)
    requires
        s.inv(),
        0 <= x < s.n,
        0 <= a < s.n,
        0 <= b < s.n,
        a != b,
        valid_step(s, x, p),
        s.step_in(x, p).passed(a, b),
    ensures
        s.step_in(x, p).behind(b, a),
{
    let s2 = s.step_in(x, p);
    let n = s.n;
    lemma_step_shape(s, x, p);
    lemma_label_grows(s, x, p);
    assert(s.local_ok(a));
    assert(s.local_ok(b));
    let r = op_result(s.mem, p.spec_op(x as usize, n));
    assert(s2.ph[x] == p.spec_after(r, x as usize, n));
    if x != a && x != b {
        assert(s2.ph[a] == s.ph[a]);
        assert(s2.ph[b] == s.ph[b]);
        assert(s2.lb(a) == s.lb(a));
        assert(s2.lb(b) == s.lb(b));
        assert(s.passed(a, b));
    } else if x == b {
        assert(s2.ph[a] == s.ph[a]);
        assert(s2.lb(a) == s.lb(a));
        assert(s.passed(a, b));
        assert(s.behind(b, a));
        match p {
            BakeryPhase::Scan(j, m) => {
                assert(r == s.lb(j as int));
            },
            BakeryPhase::Take(t) => {
                lemma_check_from(0, t, b as usize, n);
                assert(s2.lb(b) == t);
            },
            BakeryPhase::Check(i, t) => {
                lemma_check_from((i + 1) as usize, t, b as usize, n);
            },
            BakeryPhase::Compare(i, t) => {},
            BakeryPhase::Tie(i, t) => {
                lemma_check_from((i + 1) as usize, t, b as usize, n);
            },
            _ => {},
        }
    } else {
        assert(x == a);
        assert(s2.ph[b] == s.ph[b]);
        assert(s2.lb(b) == s.lb(b));
        if s.passed(a, b) {
            assert(s.behind(b, a));
            assert(s2.lb(a) == s.lb(a));
        } else {
            match p {
                BakeryPhase::Take(t) => {
                    lemma_check_from(0, t, a as usize, n);
                },
                BakeryPhase::Check(i, t) => {
                    lemma_check_from((i + 1) as usize, t, a as usize, n);
                    assert(i == b);
                    assert(s.local_ok(b));
                },
                BakeryPhase::Tie(i, t) => {
                    lemma_check_from((i + 1) as usize, t, a as usize, n);
                    assert(i == b);
                    assert(s2.prec(a, b));
                    match s.ph[b] {
                        BakeryPhase::Check(k, _) => {
                            if k > a {
                                assert(s.passed(b, a));
                                assert(s.behind(a, b));
                            }
                        },
                        BakeryPhase::Compare(k, _) => {
                            if k > a {
                                assert(s.passed(b, a));
                                assert(s.behind(a, b));
                            }
                        },
                        BakeryPhase::Tie(k, _) => {
                            if k > a {
                                assert(s.passed(b, a));
                                assert(s.behind(a, b));
                            }
                        },
                        BakeryPhase::Critical(_) => {
                            assert(s.passed(b, a));
                            assert(s.behind(a, b));
                        },
                        BakeryPhase::Lower => {
                            assert(s.passed(b, a));
                            assert(s.behind(a, b));
                        },
                        _ => {},
                    }
                },
                _ => {},
            }
        }
    }
}

/// Every step that a thread may take keeps the invariant.
pub proof fn lemma_step_keeps_inv(s: BakeryState, x: int, p: BakeryPhase)
    requires
        s.inv(),
        0 <= x < s.n,
        valid_step(s, x, p),
    ensures
        s.step_in(x, p).inv(),
{
    let s2 = s.step_in(x, p);
    lemma_step_shape(s, x, p);
    assert forall|a: int| 0 <= a < s2.n implies #[trigger] s2.local_ok(a) by {
        lemma_local(s, x, p, a);
    }
    assert forall|a: int, b: int|
        0 <= a < s2.n && 0 <= b < s2.n && a != b && #[trigger] s2.passed(a, b) implies s2.behind(
        b,
        a,
    ) by {
        lemma_pair(s, x, p, a, b);
    }
}

/// Mutual exclusion: in a state that satisfies the invariant, two threads
/// in the critical section are one thread.
pub proof fn lemma_bakery_mutual_exclusion(s: BakeryState, a: int, b: int)
    requires
        s.inv(),
        0 <= a < s.n,
        0 <= b < s.n,
        s.ph[a] is Critical,
        s.ph[b] is Critical,
    ensures
        a == b,
{
    if a != b {
        assert(s.passed(a, b));
        assert(s.behind(b, a));
    }
}

/// A thread that takes the lock alone gets closer to it with every step:
/// every flag it reads is lowered.
pub proof fn lemma_bakery_solo_step(s: BakeryState, id: int)
    requires
        s.inv(),
        0 <= id < s.n,
        s.alone(id),
        s.ph[id] != BakeryPhase::Lower,
        !s.lock_overflows(id),
    ensures
        s.lock_step(id).alone(id),
        s.lock_step(id).ph[id] is Critical || s.lock_step(id).solo_steps(id) < s.solo_steps(id),
{
    if !(s.ph[id] is Critical) {
        let p = s.lock_phase(id);
        let n = s.n;
        lemma_step_shape(s, id, p);
        assert(s.local_ok(id));
        let r = op_result(s.mem, p.spec_op(id as usize, n));
        let s2 = s.lock_step(id);
        assert(s2.ph[id] == p.spec_after(r, id as usize, n));
        match p {
            BakeryPhase::Take(t) => {
                lemma_check_from(0, t, id as usize, n);
            },
            BakeryPhase::Check(i, t) => {
                assert(s.local_ok(i as int));
                assert(r == s.fl(i as int));
                lemma_check_from((i + 1) as usize, t, id as usize, n);
            },
            BakeryPhase::Tie(i, t) => {
                lemma_check_from((i + 1) as usize, t, id as usize, n);
            },
            _ => {},
        }
        assert forall|t: int| 0 <= t < s2.n && t != id implies s2.ph[t] == BakeryPhase::Idle by {
            assert(s2.ph[t] == s.ph[t]);
        }
    }
}

/// A bakery lock for the threads numbered `0..n`.
pub struct BakeryLock {
    mem: Memory,
    threads: Vec<BakeryPhase>,
    n: usize,
}

impl View for BakeryLock {
    type V = BakeryState;

    closed spec fn view(&self) -> BakeryState {
        BakeryState { n: self.n, mem: self.mem@, ph: self.threads@ }
    }
}

impl BakeryLock {
    /// The shared memory of the lock.
    pub fn shared_memory(&self) -> (m: &Memory)
        ensures
            m@ == self@.mem,
    {
        &self.mem
    }

    /// The invariant; besides that of the protocol, no thread is left
    /// half-way through a release, since a release is a single step.
    pub open spec fn wf(&self) -> bool {
        &&& self@.inv()
        &&& forall|t: int| 0 <= t < self@.n ==> self@.ph[t] != BakeryPhase::Lower
    }

    /// Thread `id` is in its critical section.
    pub open spec fn holds(&self, id: int) -> bool {
        self@.ph[id] is Critical
    }

    /// A free lock for `n` threads: all flags lowered, all labels 0.
    pub fn new(n: usize) -> (l: BakeryLock)
        requires
            n + n <= usize::MAX,
        ensures
            l.wf(),
            l@.n == n,
            l@.mem == Seq::new((n + n) as nat, |i: int| 0usize),
            forall|t: int| 0 <= t < n ==> l@.ph[t] == BakeryPhase::Idle,
    {
        let mem = Memory::new(n + n);
        let mut threads: Vec<BakeryPhase> = Vec::new();
        while threads.len() < n
            invariant
                threads.len() <= n,
                forall|t: int| 0 <= t < threads.len() ==> threads@[t] == BakeryPhase::Idle,
            decreases n - threads.len(),
        {
            threads.push(BakeryPhase::Idle);
        }
        let l = BakeryLock { mem, threads, n };
        assert forall|a: int| 0 <= a < n implies #[trigger] l@.local_ok(a) by {
            assert(l@.fl(a) == 0);
        }
        l
    }

    /// One step of thread `id` towards the critical section: raising its
    /// flag, reading a label, publishing its label, or one read of its
    /// waiting loop.  Returns whether `id` holds the lock afterwards; a
    /// thread that already holds it changes nothing.
    pub fn lock(&mut self, id: usize) -> (acquired: bool)
        requires
            old(self).wf(),
            id < old(self)@.n,
            !old(self)@.lock_overflows(id as int),
        ensures
            final(self).wf(),
            final(self)@ == old(self)@.lock_step(id as int),
            acquired == final(self).holds(id as int),
            old(self)@.alone(id as int) ==> final(self)@.alone(id as int) && (final(self).holds(
                id as int,
            ) || final(self)@.solo_steps(id as int) < old(self)@.solo_steps(id as int)),
    {
        let ghost s = self@;
        proof {
            if s.alone(id as int) {
                lemma_bakery_solo_step(s, id as int);
            }
        }
        if matches!(self.threads[id], BakeryPhase::Critical(_)) {
            return true;
        }
        let p = self.threads[id].lock_entry();
        proof {
            assert(s.local_ok(id as int));
            lemma_step_shape(s, id as int, p);
        }
        let op = p.op(id, self.n);
        let r = self.mem.apply(op);
        let q = p.after(r, id, self.n);
        self.threads.set(id, q);
        proof {
            lemma_step_keeps_inv(s, id as int, p);
            assert(self@ == s.step_in(id as int, p));
        }
        matches!(q, BakeryPhase::Critical(_))
    }

    /// Leaves the critical section: lowers the flag of thread `id`.
    pub fn unlock(&mut self, id: usize)
        requires
            old(self).wf(),
            id < old(self)@.n,
            old(self).holds(id as int),
        ensures
            final(self).wf(),
            final(self)@ == old(self)@.unlock_step(id as int),
            final(self)@.ph[id as int] == BakeryPhase::Idle,
    {
        let ghost s = self@;
        let p = self.threads[id].unlock_entry();
        proof {
            lemma_step_shape(s, id as int, p);
        }
        let op = p.op(id, self.n);
        let r = self.mem.apply(op);
        let q = p.after(r, id, self.n);
        self.threads.set(id, q);
        proof {
            lemma_step_keeps_inv(s, id as int, p);
            assert(self@ == s.step_in(id as int, p));
        }
    }

    /// Mutual exclusion: two threads that both hold the lock are one thread.
    pub proof fn lemma_mutual_exclusion(&self, i: int, j: int)
        requires
            self.wf(),
            0 <= i < self@.n,
            0 <= j < self@.n,
            self.holds(i),
            self.holds(j),
        ensures
            i == j,
    {
        lemma_bakery_mutual_exclusion(self@, i, j);
    }
}

} // verus!
