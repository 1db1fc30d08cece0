//! The frame clock: elapsed time between ticks and a smoothed frame rate.
//!
//! Time is a count of microseconds that the caller reads from a monotonic
//! source. Frame rates are thousandths of a frame per second.

use vstd::prelude::*;

verus! {

/// How many recent frames the smoothed frame rate averages over.
pub const RATE_WINDOW: usize = 60;

/// Frames shorter than this, in microseconds, count as this long when the
/// frame rate is taken.
pub const MIN_FRAME: u64 = 1_000;

/// The frame rate a fresh clock reports.
pub const NOMINAL_RATE: u32 = 60_000;

/// The time from `last` to `now`; none when the source ran backwards.
pub open spec fn elapsed(last: u64, now: u64) -> int {
    if now >= last {
        now - last
    } else {
        0
    }
}

/// The elapsed time as a tick length: capped at what 32 bits hold.
pub open spec fn tick_length(delta: int) -> int {
    if delta > u32::MAX {
        u32::MAX as int
    } else {
        delta
    }
}

/// The frame rate of a frame that took `delta` microseconds.
pub open spec fn frame_rate(delta: int) -> int {
    if delta < MIN_FRAME {
        1_000_000_000int / (MIN_FRAME as int)
    } else {
        1_000_000_000int / delta
    }
}

/// The sum of a sequence of rates.
pub open spec fn total(rates: Seq<u32>) -> int
    decreases rates.len(),
{
    if rates.len() == 0 {
        0
    } else {
        total(rates.drop_last()) + rates.last()
    }
}

/// The most recent `RATE_WINDOW` entries of a history that grew by one.
pub open spec fn recent(rates: Seq<u32>) -> Seq<u32> {
    if rates.len() > RATE_WINDOW {
        rates.subrange(1, rates.len() as int)
    } else {
        rates
    }
}

/// Measures frames.
pub struct FrameClock {
    /// When the last tick happened.
    pub last_frame_time: u64,
    /// The rates of the most recent frames, oldest first.
    pub frame_rates: Vec<u32>,
    /// The mean of `frame_rates`.
    pub fps: u32,
}

impl FrameClock {
    /// The history is no longer than the window.
    pub open spec fn wf(&self) -> bool {
        self.frame_rates@.len() <= RATE_WINDOW
    }

    /// A clock that starts at `now` with an empty history.
    pub fn new(now: u64) -> (clock: FrameClock)
        ensures
            clock.wf(),
            clock.last_frame_time == now,
            clock.frame_rates@ == Seq::<u32>::empty(),
            clock.fps == NOMINAL_RATE,
    {
        FrameClock { last_frame_time: now, frame_rates: Vec::new(), fps: NOMINAL_RATE }
    }

    /// Whether the history fits the window.
    pub fn is_well_formed(&self) -> (b: bool)
        ensures
            b == self.wf(),
    {
        self.frame_rates.len() <= RATE_WINDOW
    }

    /// Records the frame that ends at `now` and returns its length in
    /// microseconds, by which every rate of the tick is scaled.
    pub fn tick(&mut self, now: u64) -> (dt: u32)
        requires
            old(self).wf(),
        ensures
            final(self).wf(),
            dt == tick_length(elapsed(old(self).last_frame_time, now)),
            final(self).last_frame_time == now,
            final(self).frame_rates@ == recent(
                old(self).frame_rates@.push(
                    frame_rate(elapsed(old(self).last_frame_time, now)) as u32,
                ),
            ),
            final(self).fps == total(final(self).frame_rates@) / (final(self).frame_rates@.len() as int),
    {
        let delta: u64 = if now >= self.last_frame_time {
            now - self.last_frame_time
        } else {
            0
        };
        let rate: u32 = if delta < MIN_FRAME {
            (1_000_000_000 / MIN_FRAME) as u32
        } else {
            (1_000_000_000 / delta) as u32
        };
        self.frame_rates.push(rate);
        if self.frame_rates.len() > RATE_WINDOW {
            self.frame_rates.remove(0);
        }
        self.fps = mean(&self.frame_rates);
        self.last_frame_time = now;
        if delta > 0xFFFF_FFFF {
            0xFFFF_FFFF
        } else {
            delta as u32
        }
    }
}

/// The sum of `n` rates is at most `n` times the largest rate there is.
pub proof fn lemma_total_bound(rates: Seq<u32>)
    ensures
        0 <= total(rates) <= rates.len() * 0xFFFF_FFFF,
    decreases rates.len(),
{
    if rates.len() > 0 {
        lemma_total_bound(rates.drop_last());
    }
}

/// The mean of a non-empty list of rates, rounded down.
pub fn mean(rates: &Vec<u32>) -> (m: u32)
    requires
        0 < rates@.len() <= RATE_WINDOW + 1,
    ensures
        m == total(rates@) / (rates@.len() as int),
{
    let mut sum: u64 = 0;
    let mut i: usize = 0;
    while i < rates.len()
        invariant
            i <= rates@.len() <= RATE_WINDOW + 1,
            sum == total(rates@.take(i as int)),
            sum <= i * 0xFFFF_FFFF,
        decreases rates@.len() - i,
    {
        proof {
            assert(rates@.take(i + 1).drop_last() == rates@.take(i as int));
            lemma_total_bound(rates@.take(i + 1));
        }
        sum = sum + rates[i] as u64;
        i += 1;
    }
    proof {
        assert(rates@.take(i as int) == rates@);
        lemma_total_bound(rates@);
    }
    let n: u64 = rates.len() as u64;
    let m: u64 = sum / n;
    assert(m <= 0xFFFF_FFFF) by (nonlinear_arith)
        requires
            n > 0,
            sum <= n * 0xFFFF_FFFF,
            m == sum / n,
    ;
    m as u32
}

} // verus!
