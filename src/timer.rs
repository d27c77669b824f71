use vstd::prelude::*;

verus! {

/// A one-shot countdown driven by frame deltas.
///
/// Once the elapsed time reaches the duration the timer is finished and
/// stays finished; `just_finished` is set only by the tick on which that
/// happened.
#[derive(Clone, Copy, PartialEq, Eq, Structural, Debug)]
pub struct Timer {
    pub duration: u64,
    pub elapsed: u64,
    pub finished: bool,
    pub just_finished: bool,
}

impl Timer {
    /// A fresh timer of the given duration, not yet finished.
    pub open spec fn fresh(duration: u64) -> Timer {
        Timer { duration, elapsed: 0, finished: false, just_finished: false }
    }

    /// The state of the timer after `delta` more milliseconds.
    pub open spec fn ticked(self, delta: u64) -> Timer {
        if self.finished {
            Timer { just_finished: false, ..self }
        } else if self.elapsed + delta >= self.duration {
            Timer { duration: self.duration, elapsed: self.duration, finished: true, just_finished: true }
        } else {
            Timer { elapsed: (self.elapsed + delta) as u64, just_finished: false, ..self }
        }
    }

    /// Milliseconds until the timer finishes.
    pub open spec fn remaining_spec(self) -> nat {
        if self.elapsed < self.duration {
            (self.duration - self.elapsed) as nat
        } else {
            0
        }
    }

    pub fn new(duration: u64) -> (r: Timer)
        ensures
            r == Timer::fresh(duration),
    {
        Timer { duration, elapsed: 0, finished: false, just_finished: false }
    }

    /// Advances the timer by `delta` milliseconds.
    pub fn tick(&mut self, delta: u64)
        ensures
            *final(self) == old(self).ticked(delta),
    {
        if self.finished {
            self.just_finished = false;
            return;
        }
        let left: u64 = if self.elapsed < self.duration {
            self.duration - self.elapsed
        } else {
            0
        };
        if delta >= left {
            self.elapsed = self.duration;
            self.finished = true;
            self.just_finished = true;
        } else {
            self.elapsed = self.elapsed + delta;
            self.just_finished = false;
        }
    }

    pub fn finished(&self) -> (r: bool)
        ensures
            r == self.finished,
    {
        self.finished
    }

    pub fn just_finished(&self) -> (r: bool)
        ensures
            r == self.just_finished,
    {
        self.just_finished
    }

    pub fn remaining(&self) -> (r: u64)
        ensures
            r == self.remaining_spec(),
    {
        if self.elapsed < self.duration {
            self.duration - self.elapsed
        } else {
            0
        }
    }
}

impl Default for Timer {
    /// A zero-length timer that has not been ticked yet.
    fn default() -> (r: Timer)
        ensures
            r == Timer::fresh(0),
    {
        Timer::new(0)
    }
}

/// The timer after a run of ticks.
pub open spec fn timer_after(t: Timer, deltas: Seq<u64>) -> Timer
    decreases deltas.len(),
{
    if deltas.len() == 0 {
        t
    } else {
        timer_after(t, deltas.drop_last()).ticked(deltas.last())
    }
}

/// On how many ticks of a run the timer was `just_finished`.
pub open spec fn firings(t: Timer, deltas: Seq<u64>) -> nat
    decreases deltas.len(),
{
    if deltas.len() == 0 {
        0
    } else {
        firings(t, deltas.drop_last()) + if timer_after(t, deltas.drop_last()).ticked(deltas.last()).just_finished {
            1nat
        } else {
            0nat
        }
    }
}

/// The time a run of ticks covers.
pub open spec fn total_time(deltas: Seq<u64>) -> nat
    decreases deltas.len(),
{
    if deltas.len() == 0 {
        0
    } else {
        total_time(deltas.drop_last()) + deltas.last() as nat
    }
}

/// A running timer fires exactly once over a run of ticks that covers its
/// remaining time, and not at all over a shorter run; until then it has
/// counted every millisecond.
pub proof fn lemma_timer_fires_once(t: Timer, deltas: Seq<u64>)
    requires
        !t.finished,
        t.elapsed < t.duration,
    ensures
        firings(t, deltas) == if t.elapsed + total_time(deltas) >= t.duration { 1nat } else { 0nat },
        timer_after(t, deltas).finished == (t.elapsed + total_time(deltas) >= t.duration),
        !timer_after(t, deltas).finished ==> timer_after(t, deltas).elapsed == t.elapsed + total_time(deltas),
        timer_after(t, deltas).duration == t.duration,
    decreases deltas.len(),
{
    if deltas.len() > 0 {
        lemma_timer_fires_once(t, deltas.drop_last());
    }
}

} // verus!
