//! When the loop ticks, when it sleeps and when it stops.

use crate::engine::TICK;
use vstd::prelude::*;

verus! {

/// The longest the loop sleeps without looking whether it is to stop.
pub const NAP: u128 = 50_000_000;

/// What the loop does next.
#[derive(Debug, Clone, Copy, PartialEq, Eq)]
pub enum Step {
    /// Runs a pass.
    Tick,
    /// Sleeps this long, then asks again.
    Nap(u128),
    /// Ends.
    Stop,
}

/// Where the loop stands between two steps.
#[derive(Debug, Clone, Copy, PartialEq, Eq, Structural)]
pub enum Phase {
    /// It has not run a pass yet.
    Starting,
    /// It just ran a pass.
    Ticked,
    /// It waits for the next pass to be due.
    Waiting,
}

/// The loop's schedule: a pass every [`TICK`], counted from when the last was
/// due rather than from when it ran.
#[derive(Debug, Clone, Copy, PartialEq, Eq)]
pub struct Pace {
    /// When the pass at hand was or is due.
    pub due: u128,
    /// Where the loop stands.
    pub phase: Phase,
}

/// When the next tick is due: [`TICK`] after the last was, or now where that
/// has passed already.
pub open spec fn due_after(last_due: u128, now: u128) -> int {
    if last_due + TICK < now {
        now as int
    } else {
        last_due + TICK
    }
}

impl Pace {
    /// What a loop that waits does next.
    pub open spec fn waited(self, now: u128, stop: bool) -> (Pace, Step) {
        if stop {
            (self, Step::Stop)
        } else if self.due <= now {
            (Pace { phase: Phase::Ticked, ..self }, Step::Tick)
        } else if self.due - now < NAP {
            (self, Step::Nap((self.due - now) as u128))
        } else {
            (self, Step::Nap(NAP))
        }
    }

    /// What the loop does next at `now`, where `stop` says whether it is to
    /// end. The first pass runs in any case.
    pub open spec fn stepped(self, now: u128, stop: bool) -> (Pace, Step) {
        match self.phase {
            Phase::Starting => (Pace { phase: Phase::Ticked, ..self }, Step::Tick),
            Phase::Ticked => if stop {
                (self, Step::Stop)
            } else {
                Pace { due: due_after(self.due, now) as u128, phase: Phase::Waiting }.waited(
                    now,
                    stop,
                )
            },
            Phase::Waiting => self.waited(now, stop),
        }
    }

    /// The schedule of a loop that starts at `now`.
    pub fn new(now: u128) -> (pace: Self)
        ensures
            pace == (Pace { due: now, phase: Phase::Starting }),
    {
        Pace { due: now, phase: Phase::Starting }
    }

    fn wait(&mut self, now: u128, stop: bool) -> (step: Step)
        ensures
            (*final(self), step) == old(self).waited(now, stop),
    {
        if stop {
            Step::Stop
        } else if self.due <= now {
            self.phase = Phase::Ticked;
            Step::Tick
        } else if self.due - now < NAP {
            Step::Nap(self.due - now)
        } else {
            Step::Nap(NAP)
        }
    }

    /// What the loop does next at `now`, where `stop` says whether it is to
    /// end.
    pub fn next(&mut self, now: u128, stop: bool) -> (step: Step)
        requires
            old(self).due <= u128::MAX - TICK,
        ensures
            (*final(self), step) == old(self).stepped(now, stop),
    {
        match self.phase {
            Phase::Starting => {
                self.phase = Phase::Ticked;
                Step::Tick
            },
            Phase::Ticked => {
                if stop {
                    return Step::Stop;
                }
                let due: u128 = self.due + TICK;
                self.due = if due < now {
                    now
                } else {
                    due
                };
                self.phase = Phase::Waiting;
                self.wait(now, stop)
            },
            Phase::Waiting => self.wait(now, stop),
        }
    }
}

/// The schedule is fixed: after a pass the next is due no less than [`TICK`]
/// after it was due itself, exactly that where the loop kept up, and no pass
/// runs before it is due.
pub proof fn the_schedule_is_fixed(pace: Pace, now: u128, stop: bool)
    requires
        pace.due <= u128::MAX - TICK,
    ensures
        pace.phase == Phase::Ticked && !stop ==> {
            let due = pace.stepped(now, stop).0.due;
            &&& due >= pace.due + TICK
            &&& now <= pace.due + TICK ==> due == pace.due + TICK
        },
        pace.phase == Phase::Waiting ==> pace.stepped(now, stop).0.due == pace.due,
        pace.phase != Phase::Starting && pace.stepped(now, stop).1 is Tick
            ==> pace.stepped(now, stop).0.due <= now,
{
}

/// A loop that is to end runs no other pass once it ran its first, and it
/// never sleeps past [`NAP`] without looking.
pub proof fn a_stop_is_heeded(pace: Pace, now: u128)
    ensures
        pace.phase != Phase::Starting ==> pace.stepped(now, true).1 is Stop,
        forall|stop: bool|
            (#[trigger] pace.stepped(now, stop).1 matches Step::Nap(nap) ==> 0 < nap <= NAP),
{
}

} // verus!
