//! Health points of destructible agents, with saturating damage: health
//! never goes below zero.

use vstd::prelude::*;

verus! {

/// `h` minus one hit, floored at zero.
pub open spec fn sat_sub1(h: int) -> int {
    if h >= 1 {
        h - 1
    } else {
        0
    }
}

/// `h` minus `n` hits, floored at zero.
pub open spec fn sat_minus(h: int, n: int) -> int {
    if h >= n {
        h - n
    } else {
        0
    }
}

/// Remaining health points of a destructible agent.
#[derive(Clone, Copy, PartialEq, Eq, Structural, Debug)]
pub struct Health(pub usize);

impl Health {
    /// Apply one hit: lose one point, never going below zero.
    pub fn damage(&mut self)
        ensures
            final(self).0 == sat_sub1(old(self).0 as int),
    {
        if self.0 >= 1 {
            self.0 = self.0 - 1;
        }
    }
}

/// One hit after `n` hits lands the same as `n + 1` hits at once.
pub proof fn lemma_sat_minus_step(h: int, n: int)
    requires
        0 <= h,
        0 <= n,
    ensures
        sat_sub1(sat_minus(h, n)) == sat_minus(h, n + 1),
{
}

} // verus!
