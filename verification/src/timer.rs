//! Timers that count simulation time in whole nanoseconds.
//!
//! A timer only moves when it is ticked, so its state is a function of the
//! step durations it was given and never of a wall clock. A timer is plain
//! data, so that a state that holds timers can be compared, copied and
//! laid open in a snapshot. The counting itself is the engine's: a running
//! timer is ticked by bevy's own `Timer`, so that the simulation's timers
//! run exactly as the engine's do.

use vstd::prelude::*;

verus! {

/// What a timer does once its duration is reached.
#[derive(Clone, Copy, Debug, PartialEq, Eq, Structural)]
pub enum TimerMode {
    /// Stop at the duration and stay finished until reset.
    Once,
    /// Wrap around and go on counting.
    Repeating,
}

/// Tracks elapsed time and finishes when `duration` is reached.
#[derive(Clone, Copy, Debug, PartialEq, Eq, Structural)]
pub struct Timer {
    /// Nanoseconds counted so far.
    pub elapsed: u64,
    /// Nanoseconds after which the timer finishes.
    pub duration: u64,
    pub mode: TimerMode,
    /// Whether the duration was reached by the last tick that counted.
    pub finished: bool,
    /// Whether the last tick was the one that reached the duration.
    pub just_finished: bool,
}

/// `a + b`, or the largest `u64` where the sum does not fit.
pub open spec fn saturating_sum(a: u64, b: u64) -> u64 {
    if a + b > u64::MAX {
        u64::MAX
    } else {
        (a + b) as u64
    }
}

/// What `delta` more nanoseconds make of a running timer that has counted
/// `elapsed`: the time it has counted then, whether it is finished, and
/// whether it has just finished.
///
/// Below the duration the time is added and the timer is not finished. At
/// or above it the timer is finished: a `Once` timer stops exactly at its
/// duration and has just finished; a `Repeating` timer keeps what is left
/// over of the time after its last whole duration, and has just finished
/// unless the number of whole durations, counted in 32 bits, comes out as
/// zero. A `Repeating` timer of no duration keeps no time and has always
/// just finished.
pub open spec fn run_on(elapsed: u64, duration: u64, mode: TimerMode, delta: u64) -> (
    u64,
    bool,
    bool,
) {
    let sum = elapsed + delta;
    if sum < duration {
        (sum as u64, false, false)
    } else if mode == TimerMode::Once {
        (duration, true, true)
    } else if duration == 0 {
        (0u64, true, true)
    } else {
        ((sum % (duration as int)) as u64, true, (sum / (duration as int)) % 0x1_0000_0000 != 0)
    }
}

/// `Timer::tick` of bevy, on a timer that is neither paused nor finished.
/// The timer is made of the plain values by `Timer::new` and
/// `Timer::set_elapsed`, which leave it unpaused and not finished, and is
/// read back by `elapsed`, `is_finished` and `just_finished`. The tick adds
/// the time, tests it against the duration, and where the duration is
/// reached sets the time to the duration (`Once`) or to the remainder
/// (`Repeating`) and counts the completions in a `u32`.
#[verifier::external_body]
fn engine_tick(elapsed: u64, duration: u64, mode: TimerMode, delta: u64) -> (r: (u64, bool, bool))
    ensures
        r == run_on(elapsed, duration, mode, delta),
{
    let mode = match mode {
        TimerMode::Once => bevy::time::TimerMode::Once,
        TimerMode::Repeating => bevy::time::TimerMode::Repeating,
    };
    let mut timer = bevy::time::Timer::new(std::time::Duration::from_nanos(duration), mode);
    timer.set_elapsed(std::time::Duration::from_nanos(elapsed));
    timer.tick(std::time::Duration::from_nanos(delta));
    (timer.elapsed().as_nanos() as u64, timer.is_finished(), timer.just_finished())
}

impl Timer {
    /// The timer never holds more time than its duration.
    pub open spec fn wf(self) -> bool {
        self.elapsed <= self.duration
    }

    /// A fresh timer: nothing elapsed, not finished.
    pub open spec fn started(duration: u64, mode: TimerMode) -> Timer {
        Timer { elapsed: 0, duration, mode, finished: false, just_finished: false }
    }

    /// The timer after `delta` more nanoseconds. A `Once` timer that has
    /// finished stays as it is until it is reset; any other timer runs on.
    pub open spec fn ticked(self, delta: u64) -> Timer {
        if self.mode == TimerMode::Once && self.finished {
            Timer { just_finished: false, ..self }
        } else {
            let counted = run_on(self.elapsed, self.duration, self.mode, delta);
            Timer {
                elapsed: counted.0,
                finished: counted.1,
                just_finished: counted.2,
                ..self
            }
        }
    }

    /// The timer set back to its start.
    pub open spec fn rewound(self) -> Timer {
        Timer { elapsed: 0, finished: false, just_finished: false, ..self }
    }

    /// The timer after a tick by exactly the time that remains.
    pub open spec fn completed(self) -> Timer {
        self.ticked((self.duration - self.elapsed) as u64)
    }

    pub fn new(duration: u64, mode: TimerMode) -> (t: Timer)
        ensures
            t == Timer::started(duration, mode),
            t.wf(),
    {
        Timer { elapsed: 0, duration, mode, finished: false, just_finished: false }
    }

    /// Advances the timer by `delta` nanoseconds.
    pub fn tick(&mut self, delta: u64)
        requires
            old(self).wf(),
        ensures
            *final(self) == old(self).ticked(delta),
            final(self).wf(),
    {
        if self.mode == TimerMode::Once && self.finished {
            self.just_finished = false;
        } else {
            let counted = engine_tick(self.elapsed, self.duration, self.mode, delta);
            proof {
                if self.duration > 0 {
                    vstd::arithmetic::div_mod::lemma_mod_bound(
                        self.elapsed + delta,
                        self.duration as int,
                    );
                }
            }
            self.elapsed = counted.0;
            self.finished = counted.1;
            self.just_finished = counted.2;
        }
    }

    /// Tests that the timer holds no more time than its duration.
    pub fn is_wf(&self) -> (r: bool)
        ensures
            r == self.wf(),
    {
        self.elapsed <= self.duration
    }

    pub fn is_finished(&self) -> (r: bool)
        ensures
            r == self.finished,
    {
        self.finished
    }

    pub fn just_finished(&self) -> (r: bool)
        ensures
            r == self.just_finished,
    {
        self.just_finished
    }

    /// Nanoseconds left until the duration is reached.
    pub fn remaining(&self) -> (r: u64)
        requires
            self.wf(),
        ensures
            r == self.duration - self.elapsed,
    {
        self.duration - self.elapsed
    }

    /// Sets the timer back to its start.
    pub fn reset(&mut self)
        ensures
            *final(self) == old(self).rewound(),
            final(self).wf(),
    {
        self.elapsed = 0;
        self.finished = false;
        self.just_finished = false;
    }

    /// Runs the timer to its end, as a tick by the remaining time does.
    pub fn finish(&mut self)
        requires
            old(self).wf(),
        ensures
            *final(self) == old(self).completed(),
            final(self).wf(),
    {
        let rest: u64 = self.remaining();
        self.tick(rest);
    }
}

} // verus!
