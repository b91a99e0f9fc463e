//! The countdown behind a delayed start. It is kept as plain numbers, in
//! nanoseconds, and advanced by `bevy`'s one-shot timer.

use bevy::time::Timer;
use bevy::time::TimerMode;
use std::time::Duration;
use vstd::prelude::*;

verus! {

/// A one-shot countdown over `duration` nanoseconds.
///
/// `finished` is raised by the tick that brings `elapsed` up to `duration`,
/// never by the creation of the countdown: a countdown over zero nanoseconds
/// still needs one tick.
#[derive(Debug, Clone, Copy, PartialEq, Eq, Structural)]
pub struct Countdown {
    pub duration: u64,
    pub elapsed: u64,
    pub finished: bool,
}

/// Advances a one-shot `bevy::time::Timer` over `duration` nanoseconds, of
/// which `elapsed` have passed and which has not finished yet, by `delta`
/// nanoseconds (`Timer::new`, `Timer::set_elapsed`, `Timer::tick`), and returns
/// what `Timer::elapsed` and `Timer::finished` then report.
///
/// The contract claims what the timer's source shows for a timer that is
/// neither paused nor finished: the elapsed time grows by `delta`; the timer
/// is finished exactly if that reaches the duration, and the elapsed time is
/// then clamped to the duration.
#[verifier::external_body]
fn tick_once_timer(duration: u64, elapsed: u64, delta: u64) -> (r: (u64, bool))
    ensures
        r.1 == (elapsed + delta >= duration),
        r.0 == if elapsed + delta >= duration {
            duration as int
        } else {
            elapsed + delta
        },
{
    let mut timer = Timer::new(Duration::from_nanos(duration), TimerMode::Once);
    timer.set_elapsed(Duration::from_nanos(elapsed));
    timer.tick(Duration::from_nanos(delta));
    (timer.elapsed().as_nanos() as u64, timer.finished())
}

impl Countdown {
    /// A countdown keeps within its duration, and is finished only at its end.
    pub open spec fn wf(self) -> bool {
        &&& self.elapsed <= self.duration
        &&& self.finished ==> self.elapsed == self.duration
    }

    /// A fresh countdown over `duration` nanoseconds.
    pub open spec fn spec_new(duration: u64) -> Countdown {
        Countdown { duration, elapsed: 0, finished: false }
    }

    /// The countdown after `delta` more nanoseconds. A finished countdown
    /// stays as it is.
    pub open spec fn spec_tick(self, delta: u64) -> Countdown {
        if self.finished {
            self
        } else if self.elapsed + delta >= self.duration {
            Countdown { duration: self.duration, elapsed: self.duration, finished: true }
        } else {
            Countdown {
                duration: self.duration,
                elapsed: (self.elapsed + delta) as u64,
                finished: false,
            }
        }
    }

    #[verifier::when_used_as_spec(spec_new)]
    pub fn new(duration: u64) -> (r: Countdown)
        ensures
            r == Countdown::spec_new(duration),
            r.wf(),
    {
        Countdown { duration, elapsed: 0, finished: false }
    }

    /// Advances the countdown by `delta` nanoseconds.
    pub fn tick(&mut self, delta: u64)
        ensures
            *final(self) == old(self).spec_tick(delta),
            old(self).wf() ==> final(self).wf(),
    {
        if !self.finished {
            let (elapsed, finished) = tick_once_timer(self.duration, self.elapsed, delta);
            self.elapsed = elapsed;
            self.finished = finished;
        }
    }

    pub fn finished(&self) -> (r: bool)
        ensures
            r == self.finished,
    {
        self.finished
    }
}

} // verus!
