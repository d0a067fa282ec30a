//! The dining philosophers: which chopsticks a philosopher picks up, and in
//! which order.
use vstd::prelude::*;

verus! {

/// The number of philosophers, and of chopsticks.
pub const N: usize = 5;

/// The chopsticks that philosopher `i` of `n` picks up, first and second: an
/// even philosopher takes its own chopstick and then the next one, an odd
/// philosopher the previous chopstick and then its own.
pub open spec fn spec_chopsticks(i: int, n: int) -> (int, int) {
    if i % 2 == 0 {
        (i, (i + 1) % n)
    } else {
        (i - 1, i)
    }
}

/// A rank of chopstick `c` among `n`: every philosopher picks up its
/// chopsticks in increasing rank, so no ring of philosophers can each hold
/// one chopstick and wait for the next.  The last chopstick ranks lowest when
/// `n` is odd, and chopsticks otherwise rank by number.
pub open spec fn rank(c: int, n: int) -> int {
    if n % 2 == 1 && c == n - 1 {
        -1
    } else {
        c
    }
}

/// The chopsticks that philosopher `i` of `n` picks up, in the order it
/// picks them up.
pub fn chopsticks(i: usize, n: usize) -> (pair: (usize, usize))
    requires
        i < n,
    ensures
        (pair.0 as int, pair.1 as int) == spec_chopsticks(i as int, n as int),
        pair.0 < n && pair.1 < n,
        pair.0 % 2 == 0,
        n >= 2 ==> pair.0 != pair.1,
        n >= 2 ==> rank(pair.0 as int, n as int) < rank(pair.1 as int, n as int),
{
    if i % 2 == 0 {
        if i + 1 < n {
            assert((i + 1) % (n as int) == i + 1) by (nonlinear_arith)
                requires
                    0 <= i + 1 < n,
            ;
        } else {
            assert((i + 1) % (n as int) == 0) by (nonlinear_arith)
                requires
                    i + 1 == n,
                    n > 0,
            ;
        }
        (i, (i + 1) % n)
    } else {
        (i - 1, i)
    }
}

} // verus!
