//! Cadence scheduler.
//!
//! A fixed-interval timer derived from the configured transmission rate:
//! one frame leaves the link per interval.  The timer is reset relative to
//! the moment its tick is consumed, never relative to the previous
//! deadline, so processing latency adds bounded jitter but never
//! accumulating drift.  Times are milliseconds on a monotonic clock
//! supplied by the caller.

use vstd::prelude::*;

verus! {

/// Deadline after a reset at `now`: one interval later, stopping at the
/// clock's ceiling rather than wrapping.
pub open spec fn next_deadline(now: int, interval: int) -> int {
    if now + interval > u64::MAX as int {
        u64::MAX as int
    } else {
        now + interval
    }
}

/// Per-link fixed-interval timer.
pub struct CadenceScheduler {
    interval_ms: u64,
    deadline_ms: u64,
}

impl CadenceScheduler {
    /// The fixed interval between ticks, in milliseconds.
    pub closed spec fn interval(&self) -> int {
        self.interval_ms as int
    }

    /// The instant the next tick is due, in milliseconds.
    pub closed spec fn deadline(&self) -> int {
        self.deadline_ms as int
    }

    /// A scheduler always ticks at a positive interval.
    pub open spec fn well_formed(&self) -> bool {
        self.interval() >= 1
    }

    /// A timer armed at `now`, first due one interval later.
    pub fn new(interval_ms: u64, now_ms: u64) -> (scheduler: CadenceScheduler)
        requires
            interval_ms >= 1,
        ensures
            scheduler.well_formed(),
            scheduler.interval() == interval_ms as int,
            scheduler.deadline() == next_deadline(now_ms as int, interval_ms as int),
    {
        CadenceScheduler { interval_ms, deadline_ms: now_ms.saturating_add(interval_ms) }
    }

    /// Whether the tick is due at `now`.
    pub fn is_due(&self, now_ms: u64) -> (due: bool)
        ensures
            due == (now_ms as int >= self.deadline()),
    {
        now_ms >= self.deadline_ms
    }

    /// Re-arms the timer one interval after `now` — the moment the tick was
    /// consumed, not the previous deadline.
    pub fn reset(&mut self, now_ms: u64)
        ensures
            final(self).interval() == old(self).interval(),
            final(self).deadline() == next_deadline(now_ms as int, old(self).interval()),
            final(self).well_formed() == old(self).well_formed(),
    {
        self.deadline_ms = now_ms.saturating_add(self.interval_ms);
    }
}

/// The instant of the `k`-th tick (counting from zero) of a timer armed at
/// `start` and consumed the moment it is due, with no processing latency.
pub open spec fn ideal_tick(start: int, interval: int, k: int) -> int {
    start + interval * (k + 1)
}

/// Constant cadence, ideal drive: if every tick is consumed the moment it
/// is due, the ticks that fall within an observation window of `window`
/// milliseconds from the start are exactly the first `window / interval`
/// ones — one frame per interval, no more and no fewer, however many real
/// payloads are pending.
pub proof fn lemma_constant_cadence(start: int, interval: int, window: int, k: int)
    requires
        interval >= 1,
        window >= 0,
        k >= 0,
    ensures
        (ideal_tick(start, interval, k) <= start + window) <==> (k < window / interval),
{
    assert((interval * (k + 1) <= window) <==> (k + 1 <= window / interval))
        by (nonlinear_arith)
        requires
            interval >= 1,
            window >= 0,
            k >= 0;
}

/// Ticks a scheduler may deliver, however late each one is consumed: the
/// first no earlier than one interval after the start, and each later one
/// no earlier than one interval after the previous one — the reset happens
/// when the tick is consumed, so consecutive ticks are always a full
/// interval apart.
pub open spec fn compliant_ticks(ticks: Seq<int>, start: int, interval: int) -> bool {
    &&& (ticks.len() > 0 ==> ticks[0] >= start + interval)
    &&& (forall|i: int| 0 <= i < ticks.len() - 1 ==> #[trigger] ticks[i + 1] >= ticks[i] + interval)
}

/// Constant cadence, upper bound: whatever the processing latency, the
/// `k`-th tick never comes before its ideal instant, so an observation
/// window never sees more than `window / interval` frames — delays can
/// only push traffic out of the window, never bunch it up inside.
pub proof fn lemma_cadence_never_early(ticks: Seq<int>, start: int, interval: int, k: int)
    requires
        interval >= 1,
        compliant_ticks(ticks, start, interval),
        0 <= k < ticks.len(),
    ensures
        ticks[k] >= ideal_tick(start, interval, k),
    decreases k,
{
    if k == 0 {
        assert(ticks[0] >= start + interval);
    } else {
        lemma_cadence_never_early(ticks, start, interval, k - 1);
        assert(ticks[(k - 1) + 1] >= ticks[k - 1] + interval);
        assert(interval * (k + 1) == interval * k + interval) by (nonlinear_arith);
    }
}

} // verus!
