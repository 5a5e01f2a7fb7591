//! What one namespace change does next, after each answer of the provider.
use crate::journal::records::MutationState;
use crate::transfers::{attempt_delay, delay_after, throttled_delay, ProviderFault};
use vstd::prelude::*;

verus! {

/// How long the provider may take for one change, in seconds.
pub const CHANGE_TIMEOUT: u64 = 130;

/// How a change failed.
#[derive(Debug, Clone, Copy, PartialEq, Eq, Structural)]
pub enum MutationFault {
    Conflict,
    Invalid,
    Unsupported,
    Quota,
    Uncertain,
    Provider(ProviderFault),
}

/// What came of a change.
#[derive(Debug, Clone, Copy, PartialEq, Eq, Structural)]
pub enum MutationOutcome {
    Applied,
    Uncommitted,
    Conflict,
    Indeterminate,
    Failed(MutationFault),
}

/// Whether the provider is asked for the result of an earlier attempt, rather than to
/// make the change.
pub fn must_reconcile(state: MutationState) -> (reconcile: bool)
    ensures
        reconcile == (state == MutationState::Verifying),
{
    state == MutationState::Verifying
}

/// What the journal is told.
#[derive(Debug, Clone, Copy, PartialEq, Eq, Structural)]
pub enum MutationStep {
    Acknowledge,
    Retry,
    Defer { state: MutationState, delay: u64 },
}

/// Where a failed change goes.
pub open spec fn failed_mutation_state(fault: MutationFault) -> MutationState {
    match fault {
        MutationFault::Conflict => MutationState::Conflict,
        MutationFault::Invalid
        | MutationFault::Unsupported
        | MutationFault::Quota => MutationState::Failed,
        MutationFault::Provider(provider) => match provider {
            ProviderFault::Permission
            | ProviderFault::NotFound
            | ProviderFault::Authentication => MutationState::Failed,
            _ => MutationState::VerifyRequired,
        },
        MutationFault::Uncertain => MutationState::VerifyRequired,
    }
}

/// How long a failed change waits.
pub open spec fn failed_mutation_delay(fault: MutationFault, failed_attempts: u32) -> int {
    match fault {
        MutationFault::Provider(ProviderFault::Throttled(seconds)) => throttled_delay(
            seconds,
        ) as int,
        _ => attempt_delay(failed_attempts),
    }
}

/// What the journal is told after an outcome.
pub open spec fn step_for(outcome: MutationOutcome, failed_attempts: u32) -> MutationStep {
    match outcome {
        MutationOutcome::Applied => MutationStep::Acknowledge,
        MutationOutcome::Uncommitted => MutationStep::Retry,
        MutationOutcome::Conflict => MutationStep::Defer {
            state: MutationState::Conflict,
            delay: 0,
        },
        MutationOutcome::Indeterminate => MutationStep::Defer {
            state: MutationState::NeedsReview,
            delay: 0,
        },
        MutationOutcome::Failed(fault) => MutationStep::Defer {
            state: failed_mutation_state(fault),
            delay: failed_mutation_delay(fault, failed_attempts) as u64,
        },
    }
}

/// What the journal is told after an outcome.
pub fn next_step(outcome: MutationOutcome, failed_attempts: u32) -> (step: MutationStep)
    ensures
        step == step_for(outcome, failed_attempts),
{
    match outcome {
        MutationOutcome::Applied => MutationStep::Acknowledge,
        MutationOutcome::Uncommitted => MutationStep::Retry,
        MutationOutcome::Conflict => MutationStep::Defer {
            state: MutationState::Conflict,
            delay: 0,
        },
        MutationOutcome::Indeterminate => MutationStep::Defer {
            state: MutationState::NeedsReview,
            delay: 0,
        },
        MutationOutcome::Failed(fault) => {
            let state = match fault {
                MutationFault::Conflict => MutationState::Conflict,
                MutationFault::Invalid
                | MutationFault::Unsupported
                | MutationFault::Quota => MutationState::Failed,
                MutationFault::Provider(provider) => match provider {
                    ProviderFault::Permission
                    | ProviderFault::NotFound
                    | ProviderFault::Authentication => MutationState::Failed,
                    _ => MutationState::VerifyRequired,
                },
                MutationFault::Uncertain => MutationState::VerifyRequired,
            };
            let delay: u64 = match fault {
                MutationFault::Provider(ProviderFault::Throttled(seconds)) => {
                    if seconds == u64::MAX {
                        u64::MAX
                    } else {
                        seconds + 1
                    }
                },
                _ => delay_after(failed_attempts),
            };
            MutationStep::Defer { state, delay }
        },
    }
}

/// What a person is told of an outcome that is no failure of a request.
pub fn issue_of(outcome: MutationOutcome) -> (issue: Option<&'static str>)
    ensures
        match outcome {
            MutationOutcome::Conflict => issue is Some && issue->0@
                == "remote item changed; resolve the conflict"@,
            MutationOutcome::Indeterminate => issue is Some && issue->0@
                == "cannot establish the remote result; review the retained operation"@,
            _ => issue is None,
        },
{
    match outcome {
        MutationOutcome::Conflict => Some("remote item changed; resolve the conflict"),
        MutationOutcome::Indeterminate => Some(
            "cannot establish the remote result; review the retained operation",
        ),
        _ => None,
    }
}

/// A change whose result is unknown is never made again before it was verified, and
/// one that the provider refused for good is not verified.
pub proof fn uncertain_changes_are_verified(fault: MutationFault, failed_attempts: u32)
    ensures
        fault == MutationFault::Uncertain ==> step_for(
            MutationOutcome::Failed(fault),
            failed_attempts,
        ) is Defer && step_for(MutationOutcome::Failed(fault), failed_attempts)->state
            == MutationState::VerifyRequired,
        step_for(MutationOutcome::Failed(fault), failed_attempts) != MutationStep::Retry,
{
}

/// What the provider answered decides what becomes of a change: one that it made is
/// acknowledged, one that it provably did not make is queued again, and one that it refused
/// or cannot account for is put away for a person. Nothing else acknowledges or repeats a
/// change.
pub proof fn answers_decide_what_becomes_of_changes(outcome: MutationOutcome, failed_attempts: u32)
    ensures
        step_for(outcome, failed_attempts) == MutationStep::Acknowledge <==> outcome
            == MutationOutcome::Applied,
        step_for(outcome, failed_attempts) == MutationStep::Retry <==> outcome
            == MutationOutcome::Uncommitted,
        step_for(MutationOutcome::Conflict, failed_attempts) == (MutationStep::Defer {
            state: MutationState::Conflict,
            delay: 0,
        }),
        step_for(MutationOutcome::Indeterminate, failed_attempts) == (MutationStep::Defer {
            state: MutationState::NeedsReview,
            delay: 0,
        }),
        outcome matches MutationOutcome::Failed(fault) ==> {
            &&& step_for(outcome, failed_attempts) is Defer
            &&& step_for(outcome, failed_attempts)->state == MutationState::Conflict <==> fault
                == MutationFault::Conflict
            &&& step_for(outcome, failed_attempts)->state == MutationState::Failed <==> {
                ||| fault == MutationFault::Invalid
                ||| fault == MutationFault::Unsupported
                ||| fault == MutationFault::Quota
                ||| fault == MutationFault::Provider(ProviderFault::Permission)
                ||| fault == MutationFault::Provider(ProviderFault::NotFound)
                ||| fault == MutationFault::Provider(ProviderFault::Authentication)
            }
            &&& step_for(outcome, failed_attempts)->state == MutationState::VerifyRequired <==> {
                ||| fault == MutationFault::Uncertain
                ||| fault == MutationFault::Provider(ProviderFault::Other)
                ||| fault matches MutationFault::Provider(ProviderFault::Throttled(_))
            }
        },
{
}

/// A failed change waits as long as a throttled provider asked for and a second more, or
/// two seconds after the first failure, twice as long after each further one, and never
/// more than 128.
pub proof fn failed_changes_are_spaced_out(fault: MutationFault, failed_attempts: u32, seconds: u64)
    ensures
        step_for(
            MutationOutcome::Failed(MutationFault::Provider(ProviderFault::Throttled(seconds))),
            failed_attempts,
        )->delay == (if seconds == u64::MAX {
            u64::MAX
        } else {
            (seconds + 1) as u64
        }),
        !(fault matches MutationFault::Provider(ProviderFault::Throttled(_))) ==> {
            let delay = step_for(MutationOutcome::Failed(fault), failed_attempts)->delay;
            &&& failed_attempts == 0 ==> delay == 2
            &&& failed_attempts >= 6 ==> delay == 128
            &&& failed_attempts < 6 ==> step_for(
                MutationOutcome::Failed(fault),
                (failed_attempts + 1) as u32,
            )->delay == 2 * delay
        },
{
    reveal_with_fuel(attempt_delay, 9);
}

} // verus!
