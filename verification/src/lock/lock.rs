//! The interface that every spin lock of this crate offers, and a lock that
//! guards a value with one of them.
use vstd::prelude::*;

verus! {

/// A mutual-exclusion lock shared by threads that are named by numbers.
///
/// `lock` and `unlock` each perform one atomic step of the calling thread's
/// protocol (the steps of different threads may be interleaved in any
/// order); a thread that must wait for another simply takes a step that
/// changes nothing and is asked again later.
pub trait RawLock: Sized {
    /// The invariant of the lock's shared state, kept by every step.
    spec fn wf(&self) -> bool;

    /// Thread `tid` is in its critical section.
    spec fn holds(&self, tid: int) -> bool;

    /// Thread `tid` has left its critical section and is still releasing the lock.
    spec fn releasing(&self, tid: int) -> bool;

    /// Thread `tid` may take a locking step in this state.
    spec fn admits(&self, tid: int) -> bool;

    /// Thread `tid` is not taking, holding or releasing the lock.
    spec fn idle(&self, tid: int) -> bool;

    /// The locking steps that thread `tid`, with every other thread idle,
    /// still takes at most before it holds the lock.
    spec fn solo_steps(&self, tid: int) -> nat;

    /// The releasing steps that thread `tid`, with every other thread idle,
    /// still takes at most before its release is complete.
    spec fn release_steps(&self, tid: int) -> nat;

    /// A free lock: no thread holds it or is releasing it.
    fn create() -> (l: Self)
        ensures
            l.wf(),
            forall|t: int| !l.holds(t) && !l.releasing(t),
            forall|t: int| l.idle(t),
    ;

    /// One step of thread `tid` towards holding the lock; returns whether
    /// `tid` holds it afterwards.  A thread that already holds the lock
    /// changes nothing.
    fn lock(&mut self, tid: usize) -> (acquired: bool)
        requires
            old(self).wf(),
            old(self).admits(tid as int),
            !old(self).releasing(tid as int),
        ensures
            final(self).wf(),
            acquired == final(self).holds(tid as int),
            !final(self).releasing(tid as int),
            old(self).holds(tid as int) ==> *final(self) == *old(self),
            forall|t: int|
                t != tid ==> (final(self).holds(t) == old(self).holds(t) && final(self).releasing(t)
                    == old(self).releasing(t)),
            forall|t: int| t != tid ==> final(self).idle(t) == old(self).idle(t),
            (forall|t: int| t != tid ==> old(self).idle(t)) ==> (final(self).holds(tid as int)
                || final(self).solo_steps(tid as int) < old(self).solo_steps(tid as int)),
    ;

    /// One step of thread `tid` towards releasing the lock; returns whether
    /// the release is complete.
    fn unlock(&mut self, tid: usize) -> (released: bool)
        requires
            old(self).wf(),
            old(self).holds(tid as int) || old(self).releasing(tid as int),
        ensures
            final(self).wf(),
            !final(self).holds(tid as int),
            released == !final(self).releasing(tid as int),
            forall|t: int|
                t != tid ==> (final(self).holds(t) == old(self).holds(t) && final(self).releasing(t)
                    == old(self).releasing(t)),
            forall|t: int| t != tid ==> final(self).idle(t) == old(self).idle(t),
            released ==> final(self).idle(tid as int),
            (forall|t: int| t != tid ==> old(self).idle(t)) ==> (released
                || final(self).release_steps(tid as int) < old(self).release_steps(tid as int)),
    ;

    /// An idle thread neither holds the lock nor is releasing it.
    proof fn lemma_idle(&self, tid: int)
        requires
            self.idle(tid),
        ensures
            !self.holds(tid),
            !self.releasing(tid),
    ;

    /// Mutual exclusion: two threads that both hold the lock are one thread.
    proof fn lemma_mutual_exclusion(&self, i: int, j: int)
        requires
            self.wf(),
            self.holds(i),
            self.holds(j),
        ensures
            i == j,
    ;
}

/// The proof that the thread it names holds the lock: only [`Lock::lock`]
/// hands one out, and [`Lock::unlock`] takes it back.
pub struct LockGuard {
    tid: usize,
}

impl View for LockGuard {
    type V = usize;

    /// The thread that holds the lock.
    closed spec fn view(&self) -> usize {
        self.tid
    }
}

/// A value guarded by a raw lock: the threads that share it read and write
/// the value only while they hold the lock.
pub struct Lock<L: RawLock, T> {
    raw_lock: L,
    data: T,
}

impl<L: RawLock, T> Lock<L, T> {
    /// The raw lock.
    pub closed spec fn raw(&self) -> L {
        self.raw_lock
    }

    /// The guarded value.
    pub closed spec fn value(&self) -> T {
        self.data
    }

    /// A free lock that guards `data`.
    pub fn new(data: T) -> (l: Lock<L, T>)
        ensures
            l.raw().wf(),
            forall|t: int| !l.raw().holds(t) && !l.raw().releasing(t),
            forall|t: int| l.raw().idle(t),
            l.value() == data,
    {
        Lock { raw_lock: L::create(), data }
    }

    /// One step of thread `tid` towards holding the lock; once it holds the
    /// lock, the guard that lets it reach the value.
    pub fn lock(&mut self, tid: usize) -> (guard: Option<LockGuard>)
        requires
            old(self).raw().wf(),
            old(self).raw().admits(tid as int),
            !old(self).raw().releasing(tid as int),
        ensures
            final(self).raw().wf(),
            guard is Some <==> final(self).raw().holds(tid as int),
            guard matches Some(g) ==> g@ == tid,
            !final(self).raw().releasing(tid as int),
            final(self).value() == old(self).value(),
            old(self).raw().holds(tid as int) ==> final(self).raw() == old(self).raw(),
            forall|t: int|
                t != tid ==> (final(self).raw().holds(t) == old(self).raw().holds(t)
                    && final(self).raw().releasing(t) == old(self).raw().releasing(t)),
            forall|t: int| t != tid ==> final(self).raw().idle(t) == old(self).raw().idle(t),
            (forall|t: int| t != tid ==> old(self).raw().idle(t)) ==> (guard is Some
                || final(self).raw().solo_steps(tid as int) < old(self).raw().solo_steps(tid as int)),
    {
        if self.raw_lock.lock(tid) {
            Some(LockGuard { tid })
        } else {
            None
        }
    }

    /// Gives the lock back: the first step of the release by the guard's
    /// thread; returns whether the release is complete.
    pub fn unlock(&mut self, guard: LockGuard) -> (released: bool)
        requires
            old(self).raw().wf(),
            old(self).raw().holds(guard@ as int),
        ensures
            final(self).raw().wf(),
            !final(self).raw().holds(guard@ as int),
            released == !final(self).raw().releasing(guard@ as int),
            final(self).value() == old(self).value(),
            forall|t: int|
                t != guard@ ==> (final(self).raw().holds(t) == old(self).raw().holds(t)
                    && final(self).raw().releasing(t) == old(self).raw().releasing(t)),
            forall|t: int| t != guard@ ==> final(self).raw().idle(t) == old(self).raw().idle(t),
            released ==> final(self).raw().idle(guard@ as int),
            (forall|t: int| t != guard@ ==> old(self).raw().idle(t)) ==> (released
                || final(self).raw().release_steps(guard@ as int) < old(self).raw().release_steps(guard@ as int)),
    {
        self.raw_lock.unlock(guard.tid)
    }

    /// A further step of a release that thread `tid` began; returns whether
    /// the release is complete.
    pub fn finish_unlock(&mut self, tid: usize) -> (released: bool)
        requires
            old(self).raw().wf(),
            old(self).raw().releasing(tid as int),
        ensures
            final(self).raw().wf(),
            !final(self).raw().holds(tid as int),
            released == !final(self).raw().releasing(tid as int),
            final(self).value() == old(self).value(),
            forall|t: int|
                t != tid ==> (final(self).raw().holds(t) == old(self).raw().holds(t)
                    && final(self).raw().releasing(t) == old(self).raw().releasing(t)),
            forall|t: int| t != tid ==> final(self).raw().idle(t) == old(self).raw().idle(t),
            released ==> final(self).raw().idle(tid as int),
            (forall|t: int| t != tid ==> old(self).raw().idle(t)) ==> (released
                || final(self).raw().release_steps(tid as int) < old(self).raw().release_steps(tid as int)),
    {
        self.raw_lock.unlock(tid)
    }

    /// The raw lock, to inspect its state (such as the room its memory has
    /// left) before a step.
    pub fn raw_lock(&self) -> (r: &L)
        ensures
            *r == self.raw(),
    {
        &self.raw_lock
    }

    /// The guarded value, read by the holder of the lock.
    pub fn get(&self, guard: &LockGuard) -> (v: &T)
        requires
            self.raw().holds(guard@ as int),
        ensures
            *v == self.value(),
    {
        &self.data
    }

    /// Replaces the guarded value, by the holder of the lock.
    pub fn set(&mut self, guard: &LockGuard, value: T)
        requires
            old(self).raw().holds(guard@ as int),
        ensures
            final(self).value() == value,
            final(self).raw() == old(self).raw(),
    {
        self.data = value;
    }

    /// Two guards that are valid at once belong to the same thread.
    pub proof fn lemma_guards_agree(&self, g1: &LockGuard, g2: &LockGuard)
        requires
            self.raw().wf(),
            self.raw().holds(g1@ as int),
            self.raw().holds(g2@ as int),
        ensures
            g1@ == g2@,
    {
        self.raw_lock.lemma_mutual_exclusion(g1@ as int, g2@ as int);
    }
}

} // verus!
