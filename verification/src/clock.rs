use vstd::prelude::*;

verus! {

/// The length of one tick of the game, in nanoseconds: a thirty-fifth of a
/// second.
pub const FRAME_TIME: u64 = 28_571_429;

/// Turns time that passes in uneven steps into game ticks of one length.
#[derive(Clone, Copy, Debug, PartialEq, Eq, Structural)]
pub struct FrameClock {
    /// Nanoseconds that have passed and not yet been spent on a tick.
    pub leftover_time: u64,
}

/// The time on the clock once `delta` more nanoseconds have passed, as far
/// as the clock can count.
pub open spec fn time_after(leftover: u64, delta: u64) -> int {
    if leftover + delta > u64::MAX {
        u64::MAX as int
    } else {
        leftover + delta
    }
}

impl FrameClock {
    pub fn new() -> (c: FrameClock)
        ensures
            c.leftover_time == 0,
    {
        FrameClock { leftover_time: 0 }
    }

    /// Lets `delta` nanoseconds pass. Says whether a tick is due; if so,
    /// the tick's time is taken off the clock. At most one tick is due at a
    /// time: time beyond it stays on the clock.
    pub fn advance(&mut self, delta: u64) -> (tick: bool)
        ensures
            tick == (time_after(old(self).leftover_time, delta) >= FRAME_TIME),
            final(self).leftover_time == if tick {
                time_after(old(self).leftover_time, delta) - FRAME_TIME
            } else {
                time_after(old(self).leftover_time, delta)
            },
    {
        let total: u64 = if self.leftover_time > u64::MAX - delta {
            u64::MAX
        } else {
            self.leftover_time + delta
        };
        if total >= FRAME_TIME {
            self.leftover_time = total - FRAME_TIME;
            true
        } else {
            self.leftover_time = total;
            false
        }
    }
}

} // verus!
