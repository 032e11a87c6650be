use vstd::prelude::*;

verus! {

/// The time between two updates of an application, in nanoseconds.
pub const FRAME_RATE_NANOS: u64 = 16_666_667;

/// How long an application sleeps between two looks at the clock, in
/// nanoseconds.
pub const SLEEP_TIME_NANOS: u64 = 8_333_333;

/// Paces an application's updates: one update is due for every full frame
/// period that has passed since the last one.
#[derive(Clone, Copy, Debug, PartialEq, Eq, Structural)]
pub struct FrameClock {
    pub last: u64,
}

impl FrameClock {
    /// A clock whose last update was at time 0.
    pub fn new() -> (c: FrameClock)
        ensures
            c.last == 0,
    {
        FrameClock { last: 0 }
    }

    /// Whether an update is due at time `now`: a full frame period has passed
    /// since the last one (never, while `now` is before it).
    pub fn tick_due(&self, now: u64) -> (due: bool)
        ensures
            due == (now >= self.last && now - self.last >= FRAME_RATE_NANOS),
    {
        now.saturating_sub(self.last) >= FRAME_RATE_NANOS
    }

    /// Records an update: the last one moves forward by one frame period.
    pub fn advance(&mut self)
        requires
            old(self).last + FRAME_RATE_NANOS <= u64::MAX,
        ensures
            final(self).last == old(self).last + FRAME_RATE_NANOS,
    {
        self.last = self.last + FRAME_RATE_NANOS;
    }
}

} // verus!
