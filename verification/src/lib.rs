//! Classic spin locks, a bounded blocking queue and the dining philosophers,
//! written as verified state machines over an explicit shared memory.
//!
//! Every lock is a set of per-thread protocols that perform one atomic
//! memory operation per step.  The library proves, for every interleaving
//! of those steps, that at most one thread is in its critical section.
pub mod ds;
pub mod lock;
pub mod philosopher;
