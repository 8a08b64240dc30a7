//! The bounded fan-out: a fixed ceiling on simultaneous enrichment work.
//!
//! Each page's entries are dispatched through this admission state: a
//! task is admitted only while fewer than the fixed width are in flight,
//! and each completion frees one slot. The width is a static constant,
//! never derived from page size. The page loop's barrier drains the
//! count to zero before the next page starts, so no work overlaps pages.

use vstd::prelude::*;

verus! {

/// The fixed fan-out width: at most this many enrichment invocations run
/// at once, however large a page is.
pub const FANOUT_WIDTH: u64 = 50;

/// The admission state of the bounded fan-out: how many invocations are
/// in flight right now.
pub struct ConcurrencyLimiter {
    pub in_flight: u64,
}

impl ConcurrencyLimiter {
    /// The bound the limiter exists to enforce: the in-flight count
    /// never exceeds the width.
    pub open spec fn wf(&self) -> bool {
        self.in_flight <= FANOUT_WIDTH
    }

    /// A fresh limiter with nothing in flight.
    pub fn new() -> (s: Self)
        ensures
            s.in_flight == 0,
            s.wf(),
    {
        ConcurrencyLimiter { in_flight: 0 }
    }

    /// Admit one invocation exactly when the width allows it; the bound
    /// holds afterwards either way.
    pub fn try_admit(&mut self) -> (admitted: bool)
        requires
            old(self).wf(),
        ensures
            final(self).wf(),
            admitted <==> old(self).in_flight < FANOUT_WIDTH,
            admitted ==> final(self).in_flight == old(self).in_flight + 1,
            !admitted ==> final(self).in_flight == old(self).in_flight,
    {
        if self.in_flight < FANOUT_WIDTH {
            self.in_flight = self.in_flight + 1;
            true
        } else {
            false
        }
    }

    /// Record one completed invocation, freeing its slot.
    pub fn complete(&mut self)
        requires
            old(self).in_flight > 0,
        ensures
            final(self).in_flight == old(self).in_flight - 1,
            old(self).wf() ==> final(self).wf(),
    {
        self.in_flight = self.in_flight - 1;
    }
}

/// Law: dispatching a page of `n` entries through the limiter — waiting
/// for one completion whenever the width is reached — keeps the
/// in-flight count within the width at every step; the peak reached is
/// the smaller of `n` and the width, and the page barrier drains the
/// count back to zero.
#[verifier::loop_isolation(false)]
pub fn dispatch_page(n: u64) -> (peak: u64)
    ensures
        peak <= FANOUT_WIDTH,
        peak == (if n < FANOUT_WIDTH {
            n
        } else {
            FANOUT_WIDTH
        }),
{
    let mut lim = ConcurrencyLimiter::new();
    let mut peak: u64 = 0;
    let mut started: u64 = 0;
    while started < n
        invariant
            started <= n,
            lim.wf(),
            lim.in_flight == (if started < FANOUT_WIDTH {
                started
            } else {
                FANOUT_WIDTH
            }),
            peak == lim.in_flight,
        decreases n - started,
    {
        let admitted = lim.try_admit();
        if !admitted {
            lim.complete();
            lim.try_admit();
        }
        if lim.in_flight > peak {
            peak = lim.in_flight;
        }
        started = started + 1;
    }
    while lim.in_flight > 0
        invariant
            lim.wf(),
        decreases lim.in_flight,
    {
        lim.complete();
    }
    peak
}

} // verus!
