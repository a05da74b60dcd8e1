//! The tick driver, a repeating countdown, and the phase that flips each
//! time the countdown completes.

use vstd::prelude::*;

verus! {

/// The length of the countdown, in nanoseconds: a twentieth of a second.
pub const PERIOD_NANOS: u64 = 50_000_000;

/// The two phases of a run. Each completed countdown belongs to one of them.
#[derive(Clone, Copy, Debug, PartialEq, Eq, Structural)]
pub enum Phase {
    /// The coming sample is highlighted.
    Mark,
    /// Points are eliminated.
    Reduce,
}

impl Phase {
    /// The other phase.
    pub open spec fn spec_flipped(self) -> Phase {
        match self {
            Phase::Mark => Phase::Reduce,
            Phase::Reduce => Phase::Mark,
        }
    }

    /// The other phase.
    pub fn flipped(self) -> (next: Phase)
        ensures
            next == self.spec_flipped(),
    {
        match self {
            Phase::Mark => Phase::Reduce,
            Phase::Reduce => Phase::Mark,
        }
    }
}

/// What a tick driver holds: the time run since the countdown last
/// completed, and whether the latest advance completed it.
pub struct TickState {
    pub elapsed: nat,
    pub finished: bool,
}

impl TickState {
    /// The state after an advance by `delta` nanoseconds. The countdown
    /// repeats: time beyond a completion counts towards the next one.
    pub open spec fn advanced(self, delta: nat) -> TickState {
        TickState {
            elapsed: (self.elapsed + delta) % (PERIOD_NANOS as nat),
            finished: self.elapsed + delta >= PERIOD_NANOS,
        }
    }
}

/// A repeating countdown of `PERIOD_NANOS`.
#[derive(Clone, Copy, Debug)]
pub struct TickDriver {
    elapsed: u64,
    finished: bool,
}

impl View for TickDriver {
    type V = TickState;

    closed spec fn view(&self) -> TickState {
        TickState { elapsed: self.elapsed as nat, finished: self.finished }
    }
}

impl TickDriver {
    #[verifier::type_invariant]
    spec fn within_period(self) -> bool {
        self.elapsed < PERIOD_NANOS
    }

    /// A countdown at its start, which has not completed.
    pub fn new() -> (t: TickDriver)
        ensures
            t@ == (TickState { elapsed: 0, finished: false }),
    {
        TickDriver { elapsed: 0, finished: false }
    }

    /// Advances the countdown by `delta_nanos`, the time since the previous
    /// advance.
    pub fn tick(&mut self, delta_nanos: u64)
        ensures
            final(self)@ == old(self)@.advanced(delta_nanos as nat),
            final(self)@.elapsed < PERIOD_NANOS,
    {
        proof {
            use_type_invariant(&*self);
        }
        let left: u64 = PERIOD_NANOS - self.elapsed;
        if delta_nanos < left {
            let elapsed: u64 = self.elapsed + delta_nanos;
            assert(elapsed as nat % (PERIOD_NANOS as nat) == elapsed as nat) by {
                vstd::arithmetic::div_mod::lemma_small_mod(elapsed as nat, PERIOD_NANOS as nat);
            }
            self.elapsed = elapsed;
            self.finished = false;
        } else {
            let over: u64 = delta_nanos - left;
            let elapsed: u64 = over % PERIOD_NANOS;
            assert((old(self).elapsed + delta_nanos) as nat % (PERIOD_NANOS as nat)
                == elapsed as nat) by {
                vstd::arithmetic::div_mod::lemma_mod_add_multiples_vanish(
                    over as int,
                    PERIOD_NANOS as int,
                );
            }
            self.elapsed = elapsed;
            self.finished = true;
        }
    }

    /// Whether the latest advance completed the countdown at least once.
    pub fn finished(&self) -> (r: bool)
        ensures
            r == self@.finished,
    {
        self.finished
    }

    /// The nanoseconds run since the countdown last completed.
    pub fn elapsed(&self) -> (r: u64)
        ensures
            r == self@.elapsed,
            r < PERIOD_NANOS,
    {
        proof {
            use_type_invariant(self);
        }
        self.elapsed
    }
}

} // verus!
