//! A one-shot countdown timer driven by elapsed time.

use vstd::prelude::*;

verus! {

/// A one-shot timer. Durations are in microseconds. A paused timer ignores
/// elapsed time; a finished one stays finished until reset.
#[derive(Clone, Copy, Debug, PartialEq, Eq, Structural)]
pub struct OneShotTimer {
    pub duration: u64,
    pub elapsed: u64,
    pub paused: bool,
    pub finished: bool,
    /// Whether the last tick made the timer finish.
    pub just_finished: bool,
}

impl OneShotTimer {
    pub open spec fn wf(&self) -> bool {
        self.elapsed <= self.duration
    }

    /// A paused timer at zero.
    pub fn new_paused(duration: u64) -> (t: OneShotTimer)
        ensures
            t.wf(),
            t.duration == duration,
            t.elapsed == 0,
            t.paused,
            !t.finished,
            !t.just_finished,
    {
        OneShotTimer { duration, elapsed: 0, paused: true, finished: false, just_finished: false }
    }

    /// The timer after `delta` microseconds.
    pub open spec fn tick_spec(self, delta: u64) -> OneShotTimer {
        if self.paused || self.finished {
            OneShotTimer { just_finished: false, ..self }
        } else if delta >= self.duration - self.elapsed {
            OneShotTimer { elapsed: self.duration, finished: true, just_finished: true, ..self }
        } else {
            OneShotTimer {
                elapsed: (self.elapsed + delta) as u64,
                finished: false,
                just_finished: false,
                ..self
            }
        }
    }

    pub fn tick(&mut self, delta: u64)
        requires
            old(self).wf(),
        ensures
            *final(self) == old(self).tick_spec(delta),
            final(self).wf(),
    {
        if self.paused || self.finished {
            self.just_finished = false;
        } else if delta >= self.duration - self.elapsed {
            self.elapsed = self.duration;
            self.finished = true;
            self.just_finished = true;
        } else {
            self.elapsed = self.elapsed + delta;
            self.finished = false;
            self.just_finished = false;
        }
    }

    /// The timer back at zero, not finished, paused.
    pub open spec fn rewound(self) -> OneShotTimer {
        OneShotTimer { elapsed: 0, paused: true, finished: false, just_finished: false, ..self }
    }

    pub fn rewind(&mut self)
        ensures
            *final(self) == old(self).rewound(),
            final(self).wf(),
    {
        self.elapsed = 0;
        self.finished = false;
        self.just_finished = false;
        self.paused = true;
    }
}

} // verus!
