//! Countdown timers: repeating attack cadences and one-shot cooldowns,
//! ticked once per simulation step with the elapsed time in microseconds.

use vstd::prelude::*;

verus! {

/// The elapsed tick duration `num / den` seconds expressed in whole
/// microseconds, truncated.
pub open spec fn micros_s(num: int, den: int) -> int {
    num * 1_000_000 / den
}

/// Convert a tick duration given as `num / den` seconds to microseconds.
pub fn micros_of(num: u32, den: u32) -> (r: u64)
    requires
        num <= 1_000_000,
        1 <= den,
    ensures
        r as int == micros_s(num as int, den as int),
        r <= 1_000_000_000_000,
{
    let total: u64 = (num as u64) * 1_000_000;
    proof {
        vstd::arithmetic::div_mod::lemma_div_is_ordered(
            total as int,
            1_000_000_000_000,
            den as int,
        );
        vstd::arithmetic::div_mod::lemma_div_is_ordered_by_denominator(
            1_000_000_000_000,
            1,
            den as int,
        );
        vstd::arithmetic::div_mod::lemma_div_pos_is_pos(total as int, den as int);
    }
    total / (den as u64)
}

/// A countdown timer. `remaining_us` microseconds are left until it elapses;
/// `period_us` is the span it is wound back to on reset.
#[derive(Clone, Copy, PartialEq, Eq, Structural, Debug)]
pub struct Cooldown {
    pub remaining_us: u64,
    pub period_us: u64,
}

impl Cooldown {
    /// A repeating timer fires during a tick when the elapsed time covers
    /// what was remaining.
    pub open spec fn fires(self, dt_us: u64) -> bool {
        self.remaining_us <= dt_us
    }

    /// The timer after one repeating tick: wound back to its period when it
    /// fired, otherwise reduced by the elapsed time.
    pub open spec fn after_repeat_tick(self, dt_us: u64) -> Cooldown {
        if self.fires(dt_us) {
            Cooldown { remaining_us: self.period_us, period_us: self.period_us }
        } else {
            Cooldown { remaining_us: (self.remaining_us - dt_us) as u64, period_us: self.period_us }
        }
    }

    /// The timer after one one-shot tick: counts down toward zero and stays
    /// there until reset.
    pub open spec fn after_down_tick(self, dt_us: u64) -> Cooldown {
        if self.remaining_us <= dt_us {
            Cooldown { remaining_us: 0, period_us: self.period_us }
        } else {
            Cooldown { remaining_us: (self.remaining_us - dt_us) as u64, period_us: self.period_us }
        }
    }

    /// Make a timer with the given period that first elapses after
    /// `initial_us` microseconds.
    pub fn with_period(period_us: u64, initial_us: u64) -> (r: Cooldown)
        ensures
            r == (Cooldown { remaining_us: initial_us, period_us: period_us }),
    {
        Cooldown { remaining_us: initial_us, period_us: period_us }
    }

    /// Tick a repeating timer; reports whether it fired, winding it back to
    /// its period when it did.
    pub fn tick_repeat(&mut self, dt_us: u64) -> (fired: bool)
        ensures
            fired == old(self).fires(dt_us),
            *final(self) == old(self).after_repeat_tick(dt_us),
    {
        if self.remaining_us <= dt_us {
            self.remaining_us = self.period_us;
            true
        } else {
            self.remaining_us = self.remaining_us - dt_us;
            false
        }
    }

    /// Tick a one-shot cooldown down toward zero.
    pub fn tick_down(&mut self, dt_us: u64)
        ensures
            *final(self) == old(self).after_down_tick(dt_us),
    {
        if self.remaining_us <= dt_us {
            self.remaining_us = 0;
        } else {
            self.remaining_us = self.remaining_us - dt_us;
        }
    }

    /// A one-shot cooldown is ready once it has counted down to zero.
    pub fn is_ready(&self) -> (r: bool)
        ensures
            r == (self.remaining_us == 0),
    {
        self.remaining_us == 0
    }

    /// Wind the cooldown back to its full period.
    pub fn reset(&mut self)
        ensures
            *final(self) == (Cooldown {
                remaining_us: old(self).period_us,
                period_us: old(self).period_us,
            }),
    {
        self.remaining_us = self.period_us;
    }
}

} // verus!
