//! The filter lock for the threads numbered `1..=n`: a thread climbs the
//! levels `1..=n`; at each level it names itself the victim and waits, for
//! every other thread in turn, while that thread is at the same level or
//! higher and it is still the victim.  At most `n - L` threads get past
//! level `L`, so at most one gets past level `n - 1`.
use vstd::prelude::*;
use vstd::set_lib::{lemma_int_range, lemma_len_subset, set_int_range};

use crate::lock::memory::{op_effect, op_ok, op_result, MemOp, Memory};

verus! {

/// Where a thread stands in the protocol of [`FilterLock`].
#[derive(Clone, Copy, Debug, PartialEq, Eq, Structural)]
pub enum FilterPhase {
    /// Not interested in the lock.
    Idle,
    /// About to announce that it wants level `.0`.
    Enter(usize),
    /// About to name itself the victim of level `.0`.
    Yield(usize),
    /// At level `.0`, reading the level of thread `.1`.
    Scan(usize, usize),
    /// At level `.0`, waiting on thread `.1`: reading the victim of the level.
    Watch(usize, usize),
    /// In the critical section.
    Critical,
    /// About to announce level 0.
    Leave,
}

/// The cell of the level that thread `k` wants.
pub open spec fn level_cell(k: int) -> int {
    k
}

/// The cell of the victim of level `i`, among `n` threads.
pub open spec fn victim_cell(n: int, i: int) -> int {
    n + 1 + i
}

/// The phase of thread `id` at level `i` that checks threads from `k` on:
/// its own number is skipped, and past thread `n` it climbs to the next
/// level, or past level `n` holds the lock.
pub open spec fn next_check(i: usize, k: usize, id: usize, n: usize) -> FilterPhase {
    let k2 = if k == id {
        k + 1
    } else {
        k as int
    };
    if k2 > n {
        if i >= n {
            FilterPhase::Critical
        } else {
            FilterPhase::Enter((i + 1) as usize)
        }
    } else {
        FilterPhase::Scan(i, k2 as usize)
    }
}

/// The phase of thread `id` at level `i` that checks threads from `k` on.
fn exec_next_check(i: usize, k: usize, id: usize, n: usize) -> (p: FilterPhase)
    requires
        k <= n + 1,
        id <= n,
        i <= n,
        n + 2 <= usize::MAX,
    ensures
        p == next_check(i, k, id, n),
{
    let k2 = if k == id {
        k + 1
    } else {
        k
    };
    if k2 > n {
        if i >= n {
            FilterPhase::Critical
        } else {
            FilterPhase::Enter(i + 1)
        }
    } else {
        FilterPhase::Scan(i, k2)
    }
}

impl FilterPhase {
    /// The phase in which a thread in this phase takes its next locking step:
    /// an idle thread starts by wanting level 1.
    pub open spec fn spec_lock_entry(self) -> FilterPhase {
        if self == FilterPhase::Idle {
            FilterPhase::Enter(1)
        } else {
            self
        }
    }

    /// The phase in which a thread in this phase takes its next locking step.
    pub fn lock_entry(&self) -> (p: FilterPhase)
        ensures
            p == self.spec_lock_entry(),
    {
        if *self == FilterPhase::Idle {
            FilterPhase::Enter(1)
        } else {
            *self
        }
    }

    /// The phase in which a thread in this phase takes its next releasing
    /// step: a thread in its critical section starts by announcing level 0.
    pub open spec fn spec_unlock_entry(self) -> FilterPhase {
        match self {
            FilterPhase::Critical => FilterPhase::Leave,
            _ => self,
        }
    }

    /// The phase in which a thread in this phase takes its next releasing step.
    pub fn unlock_entry(&self) -> (p: FilterPhase)
        ensures
            p == self.spec_unlock_entry(),
    {
        match *self {
            FilterPhase::Critical => FilterPhase::Leave,
            _ => *self,
        }
    }

    /// The atomic operation that thread `id` of `n` performs next in this phase.
    pub open spec fn spec_op(self, id: usize, n: usize) -> MemOp {
        match self {
            FilterPhase::Enter(i) => MemOp::Store(id, i),
            FilterPhase::Yield(i) => MemOp::Store((n + 1 + i) as usize, id),
            FilterPhase::Scan(_, k) => MemOp::Load(k),
            FilterPhase::Watch(i, _) => MemOp::Load((n + 1 + i) as usize),
            FilterPhase::Leave => MemOp::Store(id, 0),
            _ => MemOp::Snooze,
        }
    }

    /// The phase of thread `id` of `n` after its operation yielded `r`.
    pub open spec fn spec_after(self, r: usize, id: usize, n: usize) -> FilterPhase {
        match self {
            FilterPhase::Enter(i) => FilterPhase::Yield(i),
            FilterPhase::Yield(i) => next_check(i, 1, id, n),
            FilterPhase::Scan(i, k) => if r >= i {
                FilterPhase::Watch(i, k)
            } else {
                next_check(i, (k + 1) as usize, id, n)
            },
            FilterPhase::Watch(i, k) => if r == id {
                FilterPhase::Scan(i, k)
            } else {
                next_check(i, (k + 1) as usize, id, n)
            },
            FilterPhase::Leave => FilterPhase::Idle,
            _ => self,
        }
    }

    /// The atomic operation that thread `id` of `n` performs next in this phase.
    pub fn op(&self, id: usize, n: usize) -> (o: MemOp)
        requires
            n + n + 2 <= usize::MAX,
            match *self {
                FilterPhase::Yield(i) => i <= n,
                FilterPhase::Watch(i, _) => i <= n,
                _ => true,
            },
        ensures
            o == self.spec_op(id, n),
    {
        match self {
            FilterPhase::Enter(i) => MemOp::Store(id, *i),
            FilterPhase::Yield(i) => MemOp::Store(n + 1 + *i, id),
            FilterPhase::Scan(_, k) => MemOp::Load(*k),
            FilterPhase::Watch(i, _) => MemOp::Load(n + 1 + *i),
            FilterPhase::Leave => MemOp::Store(id, 0),
            _ => MemOp::Snooze,
        }
    }

    /// The phase of thread `id` of `n` after the operation of this phase yielded `r`.
    pub fn after(&self, r: usize, id: usize, n: usize) -> (p: FilterPhase)
        requires
            id <= n,
            n + 2 <= usize::MAX,
            match *self {
                FilterPhase::Yield(i) => i <= n,
                FilterPhase::Scan(i, k) => i <= n && k <= n,
                FilterPhase::Watch(i, k) => i <= n && k <= n,
                _ => true,
            },
        ensures
            p == self.spec_after(r, id, n),
    {
        match self {
            FilterPhase::Enter(i) => FilterPhase::Yield(*i),
            FilterPhase::Yield(i) => exec_next_check(*i, 1, id, n),
            FilterPhase::Scan(i, k) => if r >= *i {
                FilterPhase::Watch(*i, *k)
            } else {
                exec_next_check(*i, *k + 1, id, n)
            },
            FilterPhase::Watch(i, k) => if r == id {
                FilterPhase::Scan(*i, *k)
            } else {
                exec_next_check(*i, *k + 1, id, n)
            },
            FilterPhase::Leave => FilterPhase::Idle,
            _ => *self,
        }
    }
}

/// The state of a filter lock: the wanted levels, the victims, and the
/// phase of every thread (thread 0 takes no part).
pub struct FilterState {
    /// The number of threads.
    pub n: usize,
    /// The wanted levels of threads `0..=n`, then the victims of levels `0..=n`.
    pub mem: Seq<usize>,
    /// The phase of each thread.
    pub ph: Seq<FilterPhase>,
}

impl FilterState {
    /// The level that thread `k` wants.
    pub open spec fn lv(self, k: int) -> usize {
        self.mem[level_cell(k)]
    }

    /// The victim of level `i`.
    pub open spec fn victim(self, i: int) -> usize {
        self.mem[victim_cell(self.n as int, i)]
    }

    /// The level that a thread in phase `p` has announced.
    pub open spec fn level_of(self, p: FilterPhase) -> int {
        match p {
            FilterPhase::Idle => 0,
            FilterPhase::Enter(i) => i - 1,
            FilterPhase::Yield(i) => i as int,
            FilterPhase::Scan(i, _) => i as int,
            FilterPhase::Watch(i, _) => i as int,
            FilterPhase::Critical => self.n as int,
            FilterPhase::Leave => self.n as int,
        }
    }

    /// Thread `u` has named itself the victim of level `l` in its current
    /// attempt (it is waiting at level `l` or is past it).
    pub open spec fn member(self, u: int, l: int) -> bool {
        match self.ph[u] {
            FilterPhase::Enter(i) => i > l,
            FilterPhase::Yield(i) => i > l,
            FilterPhase::Scan(i, _) => i >= l,
            FilterPhase::Watch(i, _) => i >= l,
            FilterPhase::Critical => true,
            FilterPhase::Leave => true,
            FilterPhase::Idle => false,
        }
    }

    /// Thread `u` is past level `l` in its current attempt.
    pub open spec fn beyond(self, u: int, l: int) -> bool {
        match self.ph[u] {
            FilterPhase::Enter(i) => i > l,
            FilterPhase::Yield(i) => i > l,
            FilterPhase::Scan(i, _) => i > l,
            FilterPhase::Watch(i, _) => i > l,
            FilterPhase::Critical => true,
            FilterPhase::Leave => true,
            FilterPhase::Idle => false,
        }
    }

    /// The first thread that thread `v`, waiting at level `l`, has not yet
    /// got past; `n + 1` once `v` is past the level.
    pub open spec fn pending(self, v: int, l: int) -> int {
        match self.ph[v] {
            FilterPhase::Scan(i, k) => if i == l {
                k as int
            } else {
                self.n + 1
            },
            FilterPhase::Watch(i, k) => if i == l {
                k as int
            } else {
                self.n + 1
            },
            _ => self.n + 1,
        }
    }

    /// What holds of one thread's phase and its level.
    pub open spec fn local_ok(self, t: int) -> bool {
        let n = self.n as int;
        &&& self.lv(t) == self.level_of(self.ph[t])
        &&& match self.ph[t] {
            FilterPhase::Enter(i) => 1 <= i <= n,
            FilterPhase::Yield(i) => 1 <= i <= n,
            FilterPhase::Scan(i, k) => 1 <= i <= n && 1 <= k <= n && k != t,
            FilterPhase::Watch(i, k) => 1 <= i <= n && 1 <= k <= n && k != t,
            _ => true,
        }
    }

    /// What the victim of level `l` says about thread `u`: the victim has
    /// itself named a victim there, and has not yet got past `u`.
    pub open spec fn victim_ok(self, l: int, u: int) -> bool {
        let v = self.victim(l) as int;
        &&& 1 <= v <= self.n
        &&& self.member(v, l)
        &&& u != v ==> u >= self.pending(v, l)
    }

    /// The invariant of the filter lock.
    pub open spec fn inv(self) -> bool {
        &&& self.ph.len() == self.n + 1
        &&& self.mem.len() == self.n + self.n + 2
        &&& self.n + self.n + 2 <= usize::MAX
        &&& self.ph[0] == FilterPhase::Idle
        &&& forall|t: int| 1 <= t <= self.n ==> #[trigger] self.local_ok(t)
        &&& forall|l: int, u: int|
            1 <= l <= self.n && 1 <= u <= self.n && #[trigger] self.member(u, l) ==> self.victim_ok(
                l,
                u,
            )
    }

    /// No thread but `id` is taking or holding the lock.
    pub open spec fn alone(self, id: int) -> bool {
        forall|t: int| 1 <= t <= self.n && t != id ==> self.ph[t] == FilterPhase::Idle
    }

    /// The locking steps that thread `id`, alone, still takes at most before
    /// it holds the lock: at each level left, its announcement, its naming
    /// itself the victim, and for every other thread one read of its level
    /// (or, from a wait, a read of the victim and a read of the level).
    pub open spec fn solo_steps(self, id: int) -> nat {
        let n = self.n as int;
        (match self.ph[id] {
            FilterPhase::Critical => 0,
            FilterPhase::Scan(i, k) => level_base(n, i as int) + 2 * (n - k) + 2,
            FilterPhase::Watch(i, k) => level_base(n, i as int) + 2 * (n - k) + 3,
            FilterPhase::Yield(i) => level_base(n, i as int) + 2 * n + 2,
            FilterPhase::Enter(i) => level_base(n, i as int) + 2 * n + 3,
            _ => level_base(n, 0) + 1,
        }) as nat
    }

    /// The phase in which thread `id` takes its next locking step.
    pub open spec fn lock_phase(self, id: int) -> FilterPhase {
        self.ph[id].spec_lock_entry()
    }

    /// The state after thread `id` takes one step in phase `p`.
    pub open spec fn step_in(self, id: int, p: FilterPhase) -> FilterState {
        let op = p.spec_op(id as usize, self.n);
        FilterState {
            n: self.n,
            mem: op_effect(self.mem, op),
            ph: self.ph.update(id, p.spec_after(op_result(self.mem, op), id as usize, self.n)),
        }
    }

    /// The state after one locking step of thread `id`; a thread in its
    /// critical section takes none.
    pub open spec fn lock_step(self, id: int) -> FilterState {
        if self.ph[id] == FilterPhase::Critical {
            self
        } else {
            self.step_in(id, self.lock_phase(id))
        }
    }

    /// The state after the releasing step of thread `id`.
    pub open spec fn unlock_step(self, id: int) -> FilterState {
        self.step_in(id, self.ph[id].spec_unlock_entry())
    }
}

/// The steps that a thread may take: a locking step, or the releasing step
/// from the critical section.
pub open spec fn valid_step(s: FilterState, x: int, p: FilterPhase) -> bool {
    ||| p == s.lock_phase(x) && s.ph[x] != FilterPhase::Critical
    ||| p == FilterPhase::Leave && s.ph[x] == FilterPhase::Critical
}

/// The locking steps of a lone thread at the levels above `i`, of `n`.
pub open spec fn level_base(n: int, i: int) -> int {
    (n - i) * (2 * n + 3)
}

/// The steps above a level are those above the next level and the steps
/// of that level.
proof fn lemma_level_base(n: int, i: int)
    requires
        0 <= i <= n,
    ensures
        level_base(n, i) >= 0,
        i < n ==> level_base(n, i) == level_base(n, i + 1) + 2 * n + 3,
{
    assert((n - i) * (2 * n + 3) >= 0) by (nonlinear_arith)
        requires
            0 <= i <= n,
    ;
    assert(i < n ==> (n - i) * (2 * n + 3) == (n - (i + 1)) * (2 * n + 3) + 2 * n + 3)
        by (nonlinear_arith);
}

/// Where `next_check` lands.
proof fn lemma_next_check(i: usize, k: usize, id: usize, n: usize)
    requires
        1 <= k <= n + 1,
        1 <= id <= n,
        1 <= i <= n,
    ensures
        match next_check(i, k, id, n) {
            FilterPhase::Scan(i2, k2) => i2 == i && k <= k2 <= n && k2 != id && (k2 > k ==> k == id
                && k2 == k + 1),
            FilterPhase::Enter(i2) => i2 == i + 1 && i < n && (k > n || (k == id && k == n)),
            FilterPhase::Critical => i >= n && (k > n || (k == id && k == n)),
            _ => false,
        },
{
}

/// The shape of one step of thread `x`: its operation is in bounds, and it
/// writes at most its own level or the victim of its current level.
proof fn lemma_step_shape(s: FilterState, x: int, p: FilterPhase)
    requires
        s.inv(),
        1 <= x <= s.n,
        valid_step(s, x, p),
    ensures
        op_ok(s.mem, p.spec_op(x as usize, s.n)),
        s.step_in(x, p).mem.len() == s.mem.len(),
        forall|c: int|
            0 <= c < s.mem.len() && c != level_cell(x) && !(p matches FilterPhase::Yield(i) && c
                == victim_cell(s.n as int, i as int)) ==> #[trigger] s.step_in(x, p).mem[c]
                == s.mem[c],
{
    assert(s.local_ok(x));
}

/// A thread that has named itself the victim of level `l` wants level `l` or higher.
proof fn lemma_member_level(s: FilterState, u: int, l: int)
    requires
        s.inv(),
        1 <= u <= s.n,
        1 <= l <= s.n,
        s.member(u, l),
    ensures
        s.lv(u) >= l,
{
    assert(s.local_ok(u));
}

/// One step of thread `x` keeps what holds of thread `t` and its level.
proof fn lemma_local(s: FilterState, x: int, p: FilterPhase, t: int)
    requires
        s.inv(),
        1 <= x <= s.n,
        1 <= t <= s.n,
        valid_step(s, x, p),
    ensures
        s.step_in(x, p).local_ok(t),
{
    let s2 = s.step_in(x, p);
    let n = s.n;
    lemma_step_shape(s, x, p);
    assert(s.local_ok(x));
    assert(s.local_ok(t));
    let r = op_result(s.mem, p.spec_op(x as usize, n));
    if t == x {
        assert(s2.ph[x] == p.spec_after(r, x as usize, n));
        match p {
            FilterPhase::Yield(i) => {
                lemma_next_check(i, 1, x as usize, n);
            },
            FilterPhase::Scan(i, k) => {
                lemma_next_check(i, (k + 1) as usize, x as usize, n);
            },
            FilterPhase::Watch(i, k) => {
                lemma_next_check(i, (k + 1) as usize, x as usize, n);
            },
            _ => {},
        }
    } else {
        assert(s2.ph[t] == s.ph[t]);
        assert(s2.lv(t) == s.lv(t));
    }
}

/// One step of thread `x` keeps what the victim of level `l` says about thread `u`.
proof fn lemma_victim(s: FilterState, x: int, p: FilterPhase, l: int, u: int)
    requires
        s.inv(),
        1 <= x <= s.n,
        1 <= l <= s.n,
        1 <= u <= s.n,
        valid_step(s, x, p),
        s.step_in(x, p).member(u, l),
    ensures
        s.step_in(x, p).victim_ok(l, u),
{
    let s2 = s.step_in(x, p);
    let n = s.n;
    lemma_step_shape(s, x, p);
    assert(s.local_ok(x));
    let r = op_result(s.mem, p.spec_op(x as usize, n));
    assert(s2.ph[x] == p.spec_after(r, x as usize, n));
    if p matches FilterPhase::Yield(i) && i == l {
        lemma_next_check(l as usize, 1, x as usize, n);
        assert(s2.victim(l) == x);
    } else {
        assert(s2.victim(l) == s.victim(l));
        let v = s.victim(l) as int;
        if u == x {
            if s.member(x, l) {
                assert(s.victim_ok(l, x));
                if v != x {
                    assert(s2.ph[v] == s.ph[v]);
                }
            } else {
                match p {
                    FilterPhase::Scan(i, k) => {
                        lemma_next_check(i, (k + 1) as usize, x as usize, n);
                    },
                    FilterPhase::Watch(i, k) => {
                        lemma_next_check(i, (k + 1) as usize, x as usize, n);
                    },
                    FilterPhase::Yield(i) => {
                        lemma_next_check(i, 1, x as usize, n);
                    },
                    _ => {},
                }
            }
        } else {
            assert(s2.ph[u] == s.ph[u]);
            assert(s.member(u, l));
            assert(s.victim_ok(l, u));
            if v != x {
                assert(s2.ph[v] == s.ph[v]);
            } else {
                match p {
                    FilterPhase::Scan(i, k) => {
                        lemma_next_check(i, (k + 1) as usize, x as usize, n);
                        if i == l && r < i {
                            lemma_member_level(s, u, l);
                            assert(u != k);
                        }
                    },
                    FilterPhase::Watch(i, k) => {
                        lemma_next_check(i, (k + 1) as usize, x as usize, n);
                    },
                    FilterPhase::Yield(i) => {
                        lemma_next_check(i, 1, x as usize, n);
                    },
                    _ => {},
                }
            }
        }
    }
}

/// Every step that a thread may take keeps the invariant.
pub proof fn lemma_step_keeps_inv(s: FilterState, x: int, p: FilterPhase)
    requires
        s.inv(),
        1 <= x <= s.n,
        valid_step(s, x, p),
    ensures
        s.step_in(x, p).inv(),
{
    let s2 = s.step_in(x, p);
    lemma_step_shape(s, x, p);
    assert forall|t: int| 1 <= t <= s2.n implies #[trigger] s2.local_ok(t) by {
        lemma_local(s, x, p, t);
    }
    assert forall|l: int, u: int|
        1 <= l <= s2.n && 1 <= u <= s2.n && #[trigger] s2.member(u, l) implies s2.victim_ok(
        l,
        u,
    ) by {
        lemma_victim(s, x, p, l, u);
    }
}

/// The threads that have named themselves the victim of level `l`.
pub open spec fn members(s: FilterState, l: int) -> Set<int> {
    Set::new(|u: int| 1 <= u <= s.n && s.member(u, l))
}

/// The threads that are past level `l`.
pub open spec fn passers(s: FilterState, l: int) -> Set<int> {
    Set::new(|u: int| 1 <= u <= s.n && s.beyond(u, l))
}

/// Of the threads that named themselves the victim of a level, either at
/// most one got past it, or at least one (the last victim) did not.
proof fn lemma_passers_bound(s: FilterState, l: int)
    requires
        s.inv(),
        1 <= l <= s.n,
    ensures
        members(s, l).finite(),
        passers(s, l).finite(),
        passers(s, l).len() <= 1 || passers(s, l).len() + 1 <= members(s, l).len(),
{
    let w = members(s, l);
    let b = passers(s, l);
    lemma_int_range(1, s.n + 1);
    assert(w.subset_of(set_int_range(1, s.n + 1)));
    lemma_len_subset(w, set_int_range(1, s.n + 1));
    assert(b.subset_of(w));
    lemma_len_subset(b, w);
    if w.len() > 0 {
        let u = w.choose();
        assert(w.contains(u));
        assert(s.victim_ok(l, u));
        let v = s.victim(l) as int;
        assert(w.contains(v));
        if s.beyond(v, l) {
            assert(b.subset_of(set![v])) by {
                assert forall|y: int| b.contains(y) implies y == v by {
                    assert(w.contains(y));
                    assert(s.victim_ok(l, y));
                }
            }
            lemma_len_subset(b, set![v]);
        } else {
            assert(b.subset_of(w.remove(v)));
            lemma_len_subset(b, w.remove(v));
        }
    }
}

/// At most `n - l + 1` threads (and at least room for one) have named
/// themselves the victim of level `l`.
proof fn lemma_members_bound(s: FilterState, l: int)
    requires
        s.inv(),
        1 <= l <= s.n,
    ensures
        members(s, l).finite(),
        members(s, l).len() <= 1 || members(s, l).len() <= s.n - l + 1,
    decreases l,
{
    lemma_int_range(1, s.n + 1);
    assert(members(s, l).subset_of(set_int_range(1, s.n + 1)));
    lemma_len_subset(members(s, l), set_int_range(1, s.n + 1));
    if l > 1 {
        lemma_members_bound(s, l - 1);
        lemma_passers_bound(s, l - 1);
        assert(members(s, l).subset_of(passers(s, l - 1)));
        lemma_len_subset(members(s, l), passers(s, l - 1));
    }
}

/// Mutual exclusion: in a state that satisfies the invariant, two threads
/// in the critical section are one thread.
pub proof fn lemma_filter_mutual_exclusion(s: FilterState, a: int, b: int)
    requires
        s.inv(),
        1 <= a <= s.n,
        1 <= b <= s.n,
        s.ph[a] == FilterPhase::Critical,
        s.ph[b] == FilterPhase::Critical,
    ensures
        a == b,
{
    if a != b {
        let n = s.n as int;
        lemma_members_bound(s, n);
        lemma_passers_bound(s, n);
        assert(set![a, b].subset_of(passers(s, n)));
        lemma_len_subset(set![a, b], passers(s, n));
        assert(set![a, b].len() == 2) by {
            assert(set![a, b] == set![a].insert(b));
        }
    }
}

/// A thread that takes the lock alone gets closer to it with every step:
/// every level it reads is 0.
pub proof fn lemma_filter_solo_step(s: FilterState, id: int)
    requires
        s.inv(),
        1 <= id <= s.n,
        s.alone(id),
        s.ph[id] != FilterPhase::Leave,
    ensures
        s.lock_step(id).alone(id),
        s.lock_step(id).ph[id] == FilterPhase::Critical || s.lock_step(id).solo_steps(id)
            < s.solo_steps(id),
{
    if s.ph[id] != FilterPhase::Critical {
        let p = s.lock_phase(id);
        let n = s.n;
        assert(s.local_ok(id));
        lemma_step_shape(s, id, p);
        let r = op_result(s.mem, p.spec_op(id as usize, n));
        let s2 = s.lock_step(id);
        assert(s2.ph[id] == p.spec_after(r, id as usize, n));
        lemma_level_base(n as int, 0);
        match p {
            FilterPhase::Enter(i) => {
                lemma_level_base(n as int, i as int);
                lemma_level_base(n as int, 0);
            },
            FilterPhase::Yield(i) => {
                lemma_level_base(n as int, i as int);
                lemma_next_check(i, 1, id as usize, n);
            },
            FilterPhase::Scan(i, k) => {
                lemma_level_base(n as int, i as int);
                assert(s.local_ok(k as int));
                assert(r == s.lv(k as int));
                lemma_next_check(i, (k + 1) as usize, id as usize, n);
            },
            FilterPhase::Watch(i, k) => {
                lemma_level_base(n as int, i as int);
                lemma_next_check(i, (k + 1) as usize, id as usize, n);
            },
            _ => {},
        }
        assert forall|t: int| 1 <= t <= s2.n && t != id implies s2.ph[t] == FilterPhase::Idle by {
            assert(s2.ph[t] == s.ph[t]);
        }
    }
}

/// A filter lock for the threads numbered `1..=n`.
pub struct FilterLock {
    mem: Memory,
    threads: Vec<FilterPhase>,
    n: usize,
}

impl View for FilterLock {
    type V = FilterState;

    closed spec fn view(&self) -> FilterState {
        FilterState { n: self.n, mem: self.mem@, ph: self.threads@ }
    }
}

impl FilterLock {
    /// The shared memory of the lock.
    pub fn shared_memory(&self) -> (m: &Memory)
        ensures
            m@ == self@.mem,
    {
        &self.mem
    }

    /// The invariant; besides that of the protocol, no thread is left
    /// half-way through a release, since a release is a single step.
    pub open spec fn wf(&self) -> bool {
        &&& self@.inv()
        &&& forall|t: int| 0 <= t <= self@.n ==> self@.ph[t] != FilterPhase::Leave
    }

    /// Thread `id` is in its critical section.
    pub open spec fn holds(&self, id: int) -> bool {
        self@.ph[id] == FilterPhase::Critical
    }

    /// A free lock for the threads `1..=n`: every wanted level and every
    /// victim is 0.
    pub fn new(n: usize) -> (l: FilterLock)
        requires
            n + n + 2 <= usize::MAX,
        ensures
            l.wf(),
            l@.n == n,
            l@.mem == Seq::new((n + n + 2) as nat, |i: int| 0usize),
            forall|t: int| 0 <= t <= n ==> l@.ph[t] == FilterPhase::Idle,
    {
        let mem = Memory::new(n + n + 2);
        let mut threads: Vec<FilterPhase> = Vec::new();
        while threads.len() <= n
            invariant
                threads.len() <= n + 1,
                forall|t: int| 0 <= t < threads.len() ==> threads@[t] == FilterPhase::Idle,
            decreases n + 1 - threads.len(),
        {
            threads.push(FilterPhase::Idle);
        }
        let l = FilterLock { mem, threads, n };
        assert forall|t: int| 1 <= t <= n implies #[trigger] l@.local_ok(t) by {
            assert(l@.lv(t) == 0);
        }
        l
    }

    /// One step of thread `id` towards the critical section: announcing a
    /// level, naming itself the victim, or one read of its waiting loop.
    /// Returns whether `id` holds the lock afterwards; a thread that already
    /// holds it changes nothing.
    pub fn lock(&mut self, id: usize) -> (acquired: bool)
        requires
            old(self).wf(),
            1 <= id <= old(self)@.n,
        ensures
            final(self).wf(),
            final(self)@ == old(self)@.lock_step(id as int),
            acquired == final(self).holds(id as int),
            old(self)@.alone(id as int) ==> final(self)@.alone(id as int) && (final(self).holds(
                id as int,
            ) || final(self)@.solo_steps(id as int) < old(self)@.solo_steps(id as int)),
    {
        let ghost s = self@;
        proof {
            if s.alone(id as int) {
                lemma_filter_solo_step(s, id as int);
            }
        }
        if self.threads[id] == FilterPhase::Critical {
            return true;
        }
        let p = self.threads[id].lock_entry();
        proof {
            assert(s.local_ok(id as int));
            lemma_step_shape(s, id as int, p);
            lemma_step_keeps_inv(s, id as int, p);
        }
        let op = p.op(id, self.n);
        let r = self.mem.apply(op);
        let q = p.after(r, id, self.n);
        self.threads.set(id, q);
        assert(self@ == s.step_in(id as int, p));
        q == FilterPhase::Critical
    }

    /// Leaves the critical section: announces level 0 for thread `id`.
    pub fn unlock(&mut self, id: usize)
        requires
            old(self).wf(),
            1 <= id <= old(self)@.n,
            old(self).holds(id as int),
        ensures
            final(self).wf(),
            final(self)@ == old(self)@.unlock_step(id as int),
            final(self)@.ph[id as int] == FilterPhase::Idle,
    {
        let ghost s = self@;
        let p = self.threads[id].unlock_entry();
        proof {
            lemma_step_shape(s, id as int, p);
            lemma_step_keeps_inv(s, id as int, p);
        }
        let op = p.op(id, self.n);
        let r = self.mem.apply(op);
        let q = p.after(r, id, self.n);
        self.threads.set(id, q);
        assert(self@ == s.step_in(id as int, p));
    }

    /// Mutual exclusion: two threads that both hold the lock are one thread.
    pub proof fn lemma_mutual_exclusion(&self, i: int, j: int)
        requires
            self.wf(),
            1 <= i <= self@.n,
            1 <= j <= self@.n,
            self.holds(i),
            self.holds(j),
        ensures
            i == j,
    {
        lemma_filter_mutual_exclusion(self@, i, j);
    }
}

} // verus!
