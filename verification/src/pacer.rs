//! The dual-clock pacing model.
//!
//! The engine has two independent rates: a configurable instruction
//! rate, and the fixed 60 Hz timer/display clock.  The two must not be
//! locked one-to-one; between two successive timer ticks the engine may
//! have to execute zero or many instructions.  The pacer accumulates
//! the instruction budget across ticks so that, over time, exactly the
//! configured number of instructions per second is handed out: each
//! tick receives the whole-instruction part of the budget and the
//! remainder is carried to the next tick, never lost.

use vstd::prelude::*;

verus! {

/// Tracks the instruction budget between 60 Hz timer ticks.
pub struct Pacer {
    rate: u32,
    carry: u32,
}

impl Pacer {
    /// Instructions per second this pacer was configured with.
    pub closed spec fn rate(self) -> u32 {
        self.rate
    }

    /// Budget carried to the next tick, always less than 60.
    pub closed spec fn carry(self) -> u32 {
        self.carry
    }

    /// Structural invariant: the carry is a proper remainder, and the
    /// rate leaves room to add it without overflow.
    pub open spec fn wf(self) -> bool {
        self.carry() < 60 && self.rate() <= u32::MAX - 59
    }

    /// A pacer for `rate` instructions per second.  The bound on `rate`
    /// only keeps the per-tick budget within machine range; practical
    /// instruction rates are a few hundred to a few thousand.
    pub fn new(rate: u32) -> (p: Pacer)
        requires
            rate <= u32::MAX - 59,
        ensures
            p.wf(),
            p.rate() == rate,
            p.carry() == 0,
    {
        Pacer { rate, carry: 0 }
    }

    /// How many instructions to execute before the next timer tick: the
    /// whole-instruction part of the accumulated budget.  The last
    /// clause says no budget is created or lost: sixty times the handed
    /// out count, plus the new carry, is exactly the old carry plus the
    /// configured rate.
    pub fn instructions_for_tick(&mut self) -> (n: u32)
        requires
            old(self).wf(),
        ensures
            final(self).wf(),
            final(self).rate() == old(self).rate(),
            n == (old(self).carry() + old(self).rate()) / 60,
            final(self).carry() == (old(self).carry() + old(self).rate()) % 60,
            60 * n + final(self).carry() == old(self).carry() + old(self).rate(),
    {
        let total: u32 = self.carry + self.rate;
        let n: u32 = total / 60;
        self.carry = total % 60;
        n
    }
}

} // verus!
