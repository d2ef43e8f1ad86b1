//! The fixed-step loop: wall-clock time goes into an accumulator, and the
//! simulation drains it in steps of one fixed size.
//!
//! Time is counted in whole ticks. One nanosecond of wall-clock time is
//! worth `updates_per_second` ticks and one step costs a second's worth of
//! nanoseconds in ticks, so a step lasts exactly `1 / updates_per_second`
//! seconds whatever the rate, with no rounding.

use vstd::prelude::*;

verus! {

/// Ticks that one step costs.
pub const TICKS_PER_STEP: u128 = 1_000_000_000;

/// Where the loop stands.
#[derive(Clone, Copy, Debug, PartialEq, Eq, Structural)]
pub enum Phase {
    /// Between frames: time is being accumulated.
    Idle,
    /// Inside a frame: accumulated time is being drained.
    Stepping,
    /// Stopped for good.
    Stopped,
}

/// What the host does next.
#[derive(Clone, Copy, Debug, PartialEq, Eq, Structural)]
pub enum Action {
    /// Run one physics step. `impulse` names the ball that receives the
    /// one-shot external force before the step, if one is waiting.
    Step { impulse: Option<usize> },
    /// Nothing is owed: draw the frame and measure the next one.
    Render,
    /// Leave the loop.
    Halt,
}

/// Why the loop refused an input.
#[derive(Clone, Copy, Debug, PartialEq, Eq, Structural)]
pub enum StepError {
    /// A rate of zero steps per second has no step size.
    ZeroRate,
    /// The accumulator cannot hold that much time.
    LagOverflow,
}

/// The state of a fixed-step loop.
#[derive(Clone, Copy, Debug, PartialEq, Eq, Structural)]
pub struct SimLoop {
    /// Steps per second of simulated time; never zero.
    pub updates_per_second: u64,
    /// Accumulated time that no step has paid for yet, in ticks.
    pub lag: u128,
    pub phase: Phase,
    /// The ball that the next step's external force goes to.
    pub pending_impulse: Option<usize>,
}

/// Ticks that `nanos` nanoseconds are worth at a given rate.
pub open spec fn ticks_of(nanos: int, updates_per_second: int) -> int {
    nanos * updates_per_second
}

/// Whole steps that a lag pays for.
pub open spec fn steps_in(lag: int) -> int {
    lag / (TICKS_PER_STEP as int)
}

impl SimLoop {
    /// The rate is positive.
    pub open spec fn wf(&self) -> bool {
        self.updates_per_second > 0
    }

    /// Steps that the accumulated time pays for.
    pub open spec fn owed(&self) -> int {
        steps_in(self.lag as int)
    }

    /// An idle loop with an empty accumulator. A rate of zero is refused.
    pub fn new(updates_per_second: u64) -> (made: Result<SimLoop, StepError>)
        ensures
            match made {
                Ok(sim) => {
                    &&& updates_per_second > 0
                    &&& sim == (SimLoop {
                        updates_per_second,
                        lag: 0,
                        phase: Phase::Idle,
                        pending_impulse: None,
                    })
                    &&& sim.wf()
                },
                Err(error) => updates_per_second == 0 && error == StepError::ZeroRate,
            },
    {
        if updates_per_second == 0 {
            Err(StepError::ZeroRate)
        } else {
            Ok(SimLoop { updates_per_second, lag: 0, phase: Phase::Idle, pending_impulse: None })
        }
    }

    /// Adds the wall-clock time of one frame to the accumulator. Where the
    /// sum does not fit, nothing changes.
    pub fn add_elapsed(&mut self, nanos: u64) -> (added: Result<(), StepError>)
        ensures
            match added {
                Ok(_) => {
                    &&& old(self).lag + ticks_of(nanos as int, old(self).updates_per_second as int)
                        <= u128::MAX
                    &&& *final(self) == (SimLoop {
                        lag: (old(self).lag + ticks_of(
                            nanos as int,
                            old(self).updates_per_second as int,
                        )) as u128,
                        ..*old(self)
                    })
                },
                Err(error) => {
                    &&& error == StepError::LagOverflow
                    &&& old(self).lag + ticks_of(nanos as int, old(self).updates_per_second as int)
                        > u128::MAX
                    &&& *final(self) == *old(self)
                },
            },
    {
        assert(0 <= nanos * self.updates_per_second <= u64::MAX * u64::MAX) by (nonlinear_arith)
            requires
                0 <= nanos <= u64::MAX,
                0 <= self.updates_per_second <= u64::MAX,
        ;
        let ticks: u128 = (nanos as u128) * (self.updates_per_second as u128);
        match self.lag.checked_add(ticks) {
            Some(lag) => {
                self.lag = lag;
                Ok(())
            },
            None => Err(StepError::LagOverflow),
        }
    }

    /// Books a one-shot external force for a ball. It goes out with the
    /// next step and with no other; a request that is still waiting is
    /// replaced.
    pub fn request_impulse(&mut self, ball: usize)
        ensures
            *final(self) == (SimLoop { pending_impulse: Some(ball), ..*old(self) }),
    {
        self.pending_impulse = Some(ball);
    }

    /// Stops the loop: from now on the only action is `Halt`.
    pub fn stop(&mut self)
        ensures
            *final(self) == (SimLoop { phase: Phase::Stopped, ..*old(self) }),
    {
        self.phase = Phase::Stopped;
    }

    /// Steps that the accumulated time pays for.
    pub fn steps_owed(&self) -> (steps: u128)
        ensures
            steps == self.owed(),
    {
        self.lag / TICKS_PER_STEP
    }

    /// Decides what the host does next. A stopped loop halts. Otherwise,
    /// while the accumulator holds a step's worth of time, one step is
    /// paid for and handed out, the first of them carrying the waiting
    /// impulse; when less is left the frame is drawn and the rest is
    /// carried over.
    pub fn next_action(&mut self) -> (action: Action)
        ensures
            old(self).phase == Phase::Stopped ==> action == Action::Halt && *final(self) == *old(
                self,
            ),
            old(self).phase != Phase::Stopped && old(self).lag >= TICKS_PER_STEP ==> {
                &&& action == (Action::Step { impulse: old(self).pending_impulse })
                &&& *final(self) == (SimLoop {
                    lag: (old(self).lag - TICKS_PER_STEP) as u128,
                    phase: Phase::Stepping,
                    pending_impulse: None,
                    ..*old(self)
                })
                &&& final(self).owed() == old(self).owed() - 1
            },
            old(self).phase != Phase::Stopped && old(self).lag < TICKS_PER_STEP ==> {
                &&& action == Action::Render
                &&& *final(self) == (SimLoop { phase: Phase::Idle, ..*old(self) })
                &&& old(self).owed() == 0
            },
    {
        match self.phase {
            Phase::Stopped => Action::Halt,
            _ => {
                if self.lag >= TICKS_PER_STEP {
                    let impulse = self.pending_impulse;
                    proof {
                        lemma_step_pays_one(self.lag as int);
                    }
                    self.lag = self.lag - TICKS_PER_STEP;
                    self.phase = Phase::Stepping;
                    self.pending_impulse = None;
                    Action::Step { impulse }
                } else {
                    self.phase = Phase::Idle;
                    Action::Render
                }
            },
        }
    }
}

/// Paying for one step lowers the number of steps owed by exactly one.
pub proof fn lemma_step_pays_one(lag: int)
    requires
        lag >= TICKS_PER_STEP,
    ensures
        steps_in(lag - TICKS_PER_STEP) == steps_in(lag) - 1,
{
}

/// Time is neither lost nor made: the steps owed and the rest that is
/// carried over add up to the accumulated time, and the rest is less than
/// one step.
pub proof fn lemma_lag_splits(lag: int)
    requires
        lag >= 0,
    ensures
        lag == steps_in(lag) * TICKS_PER_STEP + lag % (TICKS_PER_STEP as int),
        0 <= lag % (TICKS_PER_STEP as int) < TICKS_PER_STEP,
        steps_in(lag) >= 0,
{
}

} // verus!
