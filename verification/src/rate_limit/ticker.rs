//! The clock of a rate limiter, and the record of what it showed.
//!
//! The clock is read only here, so the record holds every reading in its order.
use crate::rate_limit::RateLimitClock;
use vstd::prelude::*;

verus! {

/// A clock whose readings are on record.
pub struct Ticker<C> {
    clock: C,
    log: Ghost<Seq<u64>>,
}

impl<C> View for Ticker<C> {
    type V = Seq<u64>;

    /// Every reading, oldest first.
    closed spec fn view(&self) -> Seq<u64> {
        self.log@
    }
}

impl<C: RateLimitClock> Ticker<C> {
    /// The clock that is read.
    pub closed spec fn source(&self) -> C {
        self.clock
    }

    pub fn new(clock: C) -> (t: Self)
        ensures
            t.source() == clock,
            t@ == Seq::<u64>::empty(),
    {
        Ticker { clock, log: Ghost(Seq::empty()) }
    }

    /// Reads the clock.
    pub fn now_ns(&mut self) -> (ns: u64)
        ensures
            old(self).source().may_show(ns),
            final(self).source() == old(self).source(),
            final(self)@ == old(self)@.push(ns),
    {
        let ns: u64 = self.clock.now_ns();
        proof {
            self.log = Ghost(self.log@.push(ns));
        }
        ns
    }
}

} // verus!
