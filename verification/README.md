# locks

Classic spin locks, a bounded queue and the dining philosophers, written in
Verus as state machines over an explicit shared memory.

Each lock (test-and-set, test-and-test-and-set, back-off, array, CLH, MCS,
time-out, Peterson, filter, bakery) is described by the protocol that one
thread follows: in each phase the thread performs one atomic operation on
the shared memory (`lock::memory::MemOp`) and moves to the next phase
according to what the operation yielded.  The lock types hold the memory
and the phase of every thread, and their `lock` and `unlock` take one step
of one thread, so that any interleaving of threads can be played out.
For every lock the library proves an invariant that every step keeps and
that implies mutual exclusion: no two threads are ever in the critical
section at once.  It also proves that a thread that runs alone, with every
other thread idle, holds the lock after a bounded number of its own steps.

Layout:

- `src/lock/memory.rs`: the shared memory and its atomic operations.
- `src/lock/lock.rs`: the `RawLock` interface and `Lock`, a value guarded by a raw lock.
- `src/lock/counter.rs`: threads that add one to a counter under a `Lock`,
  with the proof that no increment is lost however their steps interleave.
- `src/lock/*_lock.rs`: one lock protocol each, with its invariant and proofs.
- `src/ds/locked_queue.rs`: the bounded queue.
- `src/philosopher.rs`: the order in which philosophers pick up chopsticks.
- `app/`: a program that runs the philosophers, and runs the lock protocols
  on real atomics and real threads (`locks`), and the queue with blocking
  producers and consumers (`queue`).
