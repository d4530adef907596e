//! The cycle that a polling device lives in: show that a round is under
//! way, run the round, rest, and again.

use vstd::prelude::*;
use crate::error::BusError;
use crate::round::Outcome;

verus! {

/// The pause between two rounds, in milliseconds.
pub const ROUND_INTERVAL_MILLIS: u32 = 1000;

/// Where the cycle stands.
#[derive(Clone, Copy, Debug, PartialEq, Eq, Structural)]
pub enum Stage {
    /// The indicator is to be switched on.
    Indicating,
    /// A round is to be run.
    Measuring,
    /// The indicator is to be switched off and the device rests.
    Idle,
    /// The cycle has stopped for good: the bus never came up.
    Halted { error: BusError },
}

/// What the driver of the cycle does next.
#[derive(Clone, Copy, Debug, PartialEq, Eq, Structural)]
pub enum Duty {
    /// Switch the indicator on.
    AssertIndicator,
    /// Run one measurement round and come back with its outcome.
    RunRound,
    /// Switch the indicator off and yield for this long.
    Rest { millis: u32 },
    /// Stop: nothing can be done about this error.
    Halt { error: BusError },
}

impl Stage {
    /// The stage that the cycle starts in, given how the bus driver came
    /// up: without a working bus there is nothing to cycle through.
    pub open spec fn spec_initial(setup: Result<(), BusError>) -> Stage {
        match setup {
            Ok(_) => Stage::Indicating,
            Err(error) => Stage::Halted { error },
        }
    }

    /// What is due at this stage.
    pub open spec fn spec_duty(self) -> Duty {
        match self {
            Stage::Indicating => Duty::AssertIndicator,
            Stage::Measuring => Duty::RunRound,
            Stage::Idle => Duty::Rest { millis: ROUND_INTERVAL_MILLIS },
            Stage::Halted { error } => Duty::Halt { error },
        }
    }

    /// The stage after the duty of this one is done. `outcome` is how the
    /// round ended and matters only after `RunRound`: once the round is
    /// over the rest follows, also where the round was aborted, for the next
    /// round will try again; without an outcome the round is still due.
    pub open spec fn spec_after(self, outcome: Option<Outcome>) -> Stage {
        match self {
            Stage::Indicating => Stage::Measuring,
            Stage::Measuring => match outcome {
                Some(_) => Stage::Idle,
                None => Stage::Measuring,
            },
            Stage::Idle => Stage::Indicating,
            Stage::Halted { error } => Stage::Halted { error },
        }
    }

    #[verifier::when_used_as_spec(spec_initial)]
    pub fn initial(setup: Result<(), BusError>) -> (stage: Stage)
        ensures
            stage == Stage::spec_initial(setup),
    {
        match setup {
            Ok(_) => Stage::Indicating,
            Err(error) => Stage::Halted { error },
        }
    }

    #[verifier::when_used_as_spec(spec_duty)]
    pub fn duty(self) -> (duty: Duty)
        ensures
            duty == self.spec_duty(),
    {
        match self {
            Stage::Indicating => Duty::AssertIndicator,
            Stage::Measuring => Duty::RunRound,
            Stage::Idle => Duty::Rest { millis: ROUND_INTERVAL_MILLIS },
            Stage::Halted { error } => Duty::Halt { error },
        }
    }

    #[verifier::when_used_as_spec(spec_after)]
    pub fn after(self, outcome: Option<Outcome>) -> (stage: Stage)
        ensures
            stage == self.spec_after(outcome),
    {
        match self {
            Stage::Indicating => Stage::Measuring,
            Stage::Measuring => match outcome {
                Some(_) => Stage::Idle,
                None => Stage::Measuring,
            },
            Stage::Idle => Stage::Indicating,
            Stage::Halted { error } => Stage::Halted { error },
        }
    }
}

/// One turn of the cycle around a round, however the round ends: the
/// indicator goes on, the round runs, the indicator goes off for the rest,
/// and the cycle stands where it began. The indicator is switched on once
/// and off once.
pub proof fn lemma_cycle_returns(
    outcome: Outcome,
    ignored_a: Option<Outcome>,
    ignored_b: Option<Outcome>,
)
    ensures
        ({
            let measuring = Stage::Indicating.spec_after(ignored_a);
            let idle = measuring.spec_after(Some(outcome));
            let again = idle.spec_after(ignored_b);
            &&& Stage::Indicating.spec_duty() == Duty::AssertIndicator
            &&& measuring.spec_duty() == Duty::RunRound
            &&& idle.spec_duty() == (Duty::Rest { millis: ROUND_INTERVAL_MILLIS })
            &&& again == Stage::Indicating
        }),
{
}

/// A cycle that has halted never asks for anything but to halt.
pub proof fn lemma_halt_is_final(stage: Stage, outcome: Option<Outcome>)
    requires
        stage is Halted,
    ensures
        stage.spec_after(outcome) == stage,
        stage.spec_duty() is Halt,
{
}

} // verus!
