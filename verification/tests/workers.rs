use cirrove_service::journal::records::{JournalError, MutationState, UploadState};
use cirrove_service::mutations::{
    issue_of, must_reconcile, next_step, MutationFault, MutationOutcome, MutationStep,
};
use cirrove_service::transfers::{
    delay_after, state_after, vault_key, wait_after, Found, PartRequest, ProviderFault, Transfer,
    TransferAction, TransferEnd, TransferEvent, TransferFault, UploadFault, UploadStep, PART_LIMIT,
};

fn part(offset: u64, length: u32) -> PartRequest {
    PartRequest { offset, length }
}

fn done() -> TransferEvent {
    TransferEvent::Done(Ok(()))
}

fn stepped(step: UploadStep) -> TransferEvent {
    TransferEvent::Stepped(Ok(step))
}

fn provider(fault: UploadFault) -> TransferFault {
    TransferFault::Provider(fault)
}

fn ended(state: UploadState) -> TransferAction {
    TransferAction::Finish(Ok(TransferEnd { state, issue: None }))
}

#[test]
fn a_new_transfer_keeps_its_session_before_each_part() {
    let (mut transfer, action) = Transfer::start(10, 0, false);
    assert_eq!(action, TransferAction::Begin);
    assert_eq!(
        transfer.step(stepped(UploadStep::Continue(part(0, 6))), false),
        TransferAction::Save(0)
    );
    assert_eq!(transfer.step(done(), false), TransferAction::Send(part(0, 6)));
    assert_eq!(
        transfer.step(stepped(UploadStep::Continue(part(6, 4))), false),
        TransferAction::Save(6)
    );
    assert_eq!(transfer.step(done(), false), TransferAction::Send(part(6, 4)));
    assert_eq!(
        transfer.step(stepped(UploadStep::Commit), false),
        TransferAction::Save(10)
    );
    assert_eq!(transfer.step(done(), false), TransferAction::Commit);
    assert_eq!(
        transfer.step(stepped(UploadStep::Complete), false),
        TransferAction::Acknowledge
    );
    assert_eq!(transfer.step(done(), false), ended(UploadState::Uploaded));
}

#[test]
fn a_verified_transfer_asks_before_it_sends() {
    let (mut transfer, action) = Transfer::start(10, 2, true);
    assert_eq!(action, TransferAction::Load);
    assert_eq!(
        transfer.step(TransferEvent::Loaded(Ok(true)), false),
        TransferAction::Inspect
    );
    let gone = TransferEvent::Stepped(Err(provider(UploadFault::SessionGone)));
    assert_eq!(transfer.step(gone, false), TransferAction::Reconcile);
    assert_eq!(
        transfer.step(TransferEvent::Found(Ok(Found::Uncommitted)), false),
        TransferAction::Restart
    );
    assert_eq!(transfer.step(done(), false), ended(UploadState::Pending));

    let (mut transfer, _) = Transfer::start(10, 2, true);
    assert_eq!(
        transfer.step(TransferEvent::Loaded(Ok(false)), false),
        TransferAction::Reconcile
    );
    assert_eq!(
        transfer.step(TransferEvent::Found(Ok(Found::Committed)), false),
        TransferAction::Acknowledge
    );

    let (mut transfer, _) = Transfer::start(10, 2, true);
    transfer.step(TransferEvent::Loaded(Ok(false)), false);
    assert_eq!(
        transfer.step(TransferEvent::Found(Ok(Found::Conflict)), false),
        TransferAction::Defer(UploadState::Conflict, 8)
    );
    assert_eq!(
        transfer.step(done(), false),
        TransferAction::Finish(Ok(TransferEnd {
            state: UploadState::Conflict,
            issue: Some(provider(UploadFault::Conflict)),
        }))
    );
}

#[test]
fn sessions_that_break_their_promises_are_not_followed() {
    let (mut transfer, _) = Transfer::start(10, 0, false);
    assert_eq!(
        transfer.step(stepped(UploadStep::Continue(part(8, 3))), false),
        TransferAction::Defer(UploadState::Failed, 2)
    );
    let (mut transfer, _) = Transfer::start(u64::MAX, 0, false);
    assert_eq!(
        transfer.step(stepped(UploadStep::Continue(part(0, PART_LIMIT + 1))), false),
        TransferAction::Defer(UploadState::Failed, 2)
    );
    let (mut transfer, _) = Transfer::start(10, 0, false);
    transfer.step(stepped(UploadStep::Continue(part(0, 6))), false);
    transfer.step(done(), false);
    assert_eq!(
        transfer.step(stepped(UploadStep::Continue(part(5, 5))), false),
        TransferAction::Defer(UploadState::VerifyRequired, 2)
    );
    let (mut transfer, _) = Transfer::start(10, 0, false);
    transfer.step(stepped(UploadStep::Commit), false);
    transfer.step(done(), false);
    assert_eq!(
        transfer.step(stepped(UploadStep::Commit), false),
        TransferAction::Defer(UploadState::VerifyRequired, 2)
    );
    let (mut transfer, _) = Transfer::start(10, 0, false);
    assert_eq!(
        transfer.step(stepped(UploadStep::Complete), true),
        TransferAction::Defer(UploadState::VerifyRequired, 2)
    );
    assert_eq!(
        transfer.step(TransferEvent::Done(Err(TransferFault::Worker)), false),
        TransferAction::Finish(Err(TransferFault::Worker))
    );
}

#[test]
fn faults_decide_where_a_transfer_goes_and_how_long_it_waits() {
    let throttled = provider(UploadFault::Provider(ProviderFault::Throttled(30)));
    assert_eq!(state_after(throttled), UploadState::VerifyRequired);
    assert_eq!(wait_after(throttled, 3), 31);
    let endless = provider(UploadFault::Provider(ProviderFault::Throttled(u64::MAX)));
    assert_eq!(wait_after(endless, 0), u64::MAX);
    assert_eq!(state_after(provider(UploadFault::Conflict)), UploadState::Conflict);
    assert_eq!(state_after(provider(UploadFault::Quota)), UploadState::Failed);
    assert_eq!(
        state_after(provider(UploadFault::Provider(ProviderFault::Authentication))),
        UploadState::Failed
    );
    assert_eq!(
        state_after(TransferFault::Journal(JournalError::Corrupt)),
        UploadState::Failed
    );
    assert_eq!(
        state_after(TransferFault::Journal(JournalError::Storage)),
        UploadState::VerifyRequired
    );
    assert_eq!(state_after(TransferFault::Vault), UploadState::VerifyRequired);
    let delays: Vec<u64> = [0, 1, 2, 5, 6, 7, 100].iter().map(|n| delay_after(*n)).collect();
    assert_eq!(delays, [2, 4, 8, 64, 128, 128, 128]);
}

#[test]
fn session_credentials_are_found_by_the_operation() {
    assert_eq!(
        vault_key(0x0123_4567_89ab_cdef_0123_4567_89ab_cdef),
        "upload/01234567-89ab-cdef-0123-456789abcdef"
    );
}

#[test]
fn outcomes_of_changes_are_kept_retried_or_reviewed() {
    assert!(must_reconcile(MutationState::Verifying));
    assert!(!must_reconcile(MutationState::Applying));
    assert_eq!(next_step(MutationOutcome::Applied, 0), MutationStep::Acknowledge);
    assert_eq!(next_step(MutationOutcome::Uncommitted, 0), MutationStep::Retry);
    let defer = |state, delay| MutationStep::Defer { state, delay };
    assert_eq!(
        next_step(MutationOutcome::Conflict, 3),
        defer(MutationState::Conflict, 0)
    );
    assert_eq!(
        next_step(MutationOutcome::Indeterminate, 3),
        defer(MutationState::NeedsReview, 0)
    );
    assert_eq!(
        next_step(MutationOutcome::Failed(MutationFault::Uncertain), 3),
        defer(MutationState::VerifyRequired, 16)
    );
    assert_eq!(
        next_step(MutationOutcome::Failed(MutationFault::Quota), 0),
        defer(MutationState::Failed, 2)
    );
    assert_eq!(
        next_step(
            MutationOutcome::Failed(MutationFault::Provider(ProviderFault::Throttled(9))),
            0
        ),
        defer(MutationState::VerifyRequired, 10)
    );
    assert_eq!(
        issue_of(MutationOutcome::Conflict),
        Some("remote item changed; resolve the conflict")
    );
    assert!(issue_of(MutationOutcome::Indeterminate).unwrap().contains("review"));
    assert_eq!(issue_of(MutationOutcome::Applied), None);
}

#[test]
fn a_fault_is_told_in_words() {
    assert_eq!(
        TransferFault::Vault.message(),
        Some("upload credential storage is unavailable")
    );
    assert_eq!(
        TransferFault::Worker.message(),
        Some("local upload worker is unavailable")
    );
    assert_eq!(
        TransferFault::Journal(JournalError::Stale).message(),
        Some("upload attempt is stale or out of order")
    );
    assert_eq!(provider(UploadFault::Conflict).message(), None);
}
