//! The repeating timer that gates the simulation: it gathers the time that
//! frames hand it and fires each time a full interval has gone by.

use vstd::prelude::*;

verus! {

/// Time left over in a repeating timer of interval `duration` that held
/// `elapsed` and was ticked by `delta` (all in nanoseconds).
pub open spec fn elapsed_after(duration: u64, elapsed: u64, delta: u64) -> int {
    if duration == 0 {
        0
    } else {
        (elapsed + delta) % (duration as int)
    }
}

/// How many intervals that tick completed, as the 32-bit counter reports it.
pub open spec fn laps_after(duration: u64, elapsed: u64, delta: u64) -> int {
    if duration == 0 {
        u32::MAX as int
    } else {
        ((elapsed + delta) / (duration as int)) % 0x1_0000_0000
    }
}

/// One tick of a running, repeating `bevy::time::Timer` with interval
/// `duration` that has gathered `elapsed`, by `delta`. Not proved: that the
/// timer then holds the remainder of the gathered time by the interval, and
/// counts the completed intervals, cut to 32 bits; with an interval of zero it
/// holds nothing and the counter stands at its maximum.
#[verifier::external_body]
fn repeating_tick(duration: u64, elapsed: u64, delta: u64) -> (r: (u64, u32))
    ensures
        r.0 == elapsed_after(duration, elapsed, delta),
        r.1 == laps_after(duration, elapsed, delta),
{
    let mut timer = bevy::time::Timer::new(
        core::time::Duration::from_nanos(duration),
        bevy::time::TimerMode::Repeating,
    );
    timer.set_elapsed(core::time::Duration::from_nanos(elapsed));
    timer.tick(core::time::Duration::from_nanos(delta));
    (timer.elapsed().as_nanos() as u64, timer.times_finished_this_tick())
}

/// A repeating timer, in nanoseconds.
#[derive(Clone, Copy, Debug, PartialEq, Eq, Structural)]
pub struct Timer {
    /// The interval.
    pub duration: u64,
    /// Time gathered since the interval last completed.
    pub elapsed: u64,
    /// Intervals completed by the latest tick.
    pub times_finished_this_tick: u32,
}

impl Timer {
    /// The timer after a tick by `delta`.
    pub open spec fn spec_tick(self, delta: u64) -> Timer {
        Timer {
            duration: self.duration,
            elapsed: elapsed_after(self.duration, self.elapsed, delta) as u64,
            times_finished_this_tick: laps_after(self.duration, self.elapsed, delta) as u32,
        }
    }

    /// Whether the latest tick completed an interval.
    pub open spec fn spec_just_finished(&self) -> bool {
        self.times_finished_this_tick > 0
    }

    /// A fresh timer with the given interval.
    pub fn new(duration: u64) -> (r: Timer)
        ensures
            r == (Timer { duration, elapsed: 0, times_finished_this_tick: 0 }),
    {
        Timer { duration, elapsed: 0, times_finished_this_tick: 0 }
    }

    /// A fresh timer with an interval of `millis` milliseconds.
    pub fn from_millis(millis: u32) -> (r: Timer)
        ensures
            r == (Timer { duration: (millis * 1_000_000) as u64, elapsed: 0, times_finished_this_tick: 0 }),
    {
        let nanos: u64 = millis as u64 * 1_000_000;
        Timer::new(nanos)
    }

    /// Hands the timer the time `delta` that has gone by.
    pub fn tick(&mut self, delta: u64)
        ensures
            *final(self) == old(self).spec_tick(delta),
    {
        let r: (u64, u32) = repeating_tick(self.duration, self.elapsed, delta);
        self.elapsed = r.0;
        self.times_finished_this_tick = r.1;
    }

    /// Whether the latest tick completed an interval.
    #[verifier::when_used_as_spec(spec_just_finished)]
    pub fn just_finished(&self) -> (r: bool)
        ensures
            r == self.spec_just_finished(),
    {
        self.times_finished_this_tick > 0
    }

    /// With an interval above zero, a tick that stays within 32 bits of
    /// completed intervals fires exactly when the gathered time reaches the
    /// interval, and what it keeps is less than the interval.
    pub proof fn lemma_tick_fires(self, delta: u64)
        requires
            self.duration > 0,
            self.elapsed + delta < 0x1_0000_0000 * self.duration,
        ensures
            self.spec_tick(delta).spec_just_finished() <==> self.elapsed + delta >= self.duration,
            self.spec_tick(delta).elapsed < self.duration,
            self.elapsed + delta < self.duration ==> self.spec_tick(delta).elapsed == self.elapsed + delta,
    {
        let sum: int = self.elapsed + delta;
        let d: int = self.duration as int;
        assert(0 <= sum / d < 0x1_0000_0000 && 0 <= sum % d < d && (sum / d > 0 <==> sum >= d) && (sum < d ==> sum % d == sum)) by (nonlinear_arith)
            requires
                0 <= sum < 0x1_0000_0000 * d,
                d > 0,
        ;
    }
}

} // verus!
