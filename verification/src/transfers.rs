//! What one transfer does next: how an upload goes on after each answer of the
//! provider, and where a failed one goes.
use crate::journal::records::{journal_message, JournalError, UploadState};
use crate::model::Id;
use crate::outside::{id_text, write_id};
use crate::text::concat;
use vstd::prelude::*;

verus! {

/// The longest part of one request.
pub const PART_LIMIT: u32 = 16_777_216;

/// How a provider request failed.
#[derive(Debug, Clone, Copy, PartialEq, Eq, Structural)]
pub enum ProviderFault {
    Permission,
    NotFound,
    Authentication,
    /// Asked to come back after this many seconds.
    Throttled(u64),
    /// Unavailable, offline or not understood.
    Other,
}

/// How an upload request failed.
#[derive(Debug, Clone, Copy, PartialEq, Eq, Structural)]
pub enum UploadFault {
    Conflict,
    Invalid,
    Unsupported,
    Quota,
    SessionGone,
    CheckpointInvalid,
    Uncertain,
    Provider(ProviderFault),
}

/// Why a transfer stopped.
#[derive(Debug, Clone, Copy, PartialEq, Eq, Structural)]
pub enum TransferFault {
    Journal(JournalError),
    Provider(UploadFault),
    Vault,
    Worker,
}

/// What a person is told of a fault. A provider has its own words for its faults.
pub open spec fn transfer_message(fault: TransferFault) -> Option<Seq<char>> {
    match fault {
        TransferFault::Journal(error) => Some(journal_message(error)),
        TransferFault::Provider(_) => None,
        TransferFault::Vault => Some("upload credential storage is unavailable"@),
        TransferFault::Worker => Some("local upload worker is unavailable"@),
    }
}

impl TransferFault {
    /// What a person is told, unless the fault is the provider's.
    pub fn message(&self) -> (text: Option<&'static str>)
        ensures
            match text {
                Some(text) => transfer_message(*self) == Some(text@),
                None => transfer_message(*self) is None,
            },
    {
        match self {
            TransferFault::Journal(error) => Some(error.message()),
            TransferFault::Provider(_) => None,
            TransferFault::Vault => Some("upload credential storage is unavailable"),
            TransferFault::Worker => Some("local upload worker is unavailable"),
        }
    }
}

/// The fault will not go away by trying again.
pub open spec fn lasting(fault: UploadFault) -> bool {
    match fault {
        UploadFault::Invalid | UploadFault::Unsupported | UploadFault::Quota => true,
        UploadFault::Provider(provider) => match provider {
            ProviderFault::Permission
            | ProviderFault::NotFound
            | ProviderFault::Authentication => true,
            _ => false,
        },
        _ => false,
    }
}

/// Where a failed transfer goes. What may have reached the provider is verified before
/// anything is sent again.
pub open spec fn failed_state(fault: TransferFault) -> UploadState {
    match fault {
        TransferFault::Provider(upload) => if upload == UploadFault::Conflict {
            UploadState::Conflict
        } else if lasting(upload) {
            UploadState::Failed
        } else {
            UploadState::VerifyRequired
        },
        TransferFault::Journal(error) => if error == JournalError::Corrupt {
            UploadState::Failed
        } else {
            UploadState::VerifyRequired
        },
        _ => UploadState::VerifyRequired,
    }
}

/// Where a failed transfer goes.
pub fn state_after(fault: TransferFault) -> (state: UploadState)
    ensures
        state == failed_state(fault),
{
    match fault {
        TransferFault::Provider(upload) => match upload {
            UploadFault::Conflict => UploadState::Conflict,
            UploadFault::Invalid | UploadFault::Unsupported | UploadFault::Quota => {
                UploadState::Failed
            },
            UploadFault::Provider(provider) => match provider {
                ProviderFault::Permission
                | ProviderFault::NotFound
                | ProviderFault::Authentication => UploadState::Failed,
                _ => UploadState::VerifyRequired,
            },
            _ => UploadState::VerifyRequired,
        },
        TransferFault::Journal(error) => {
            if error == JournalError::Corrupt {
                return UploadState::Failed;
            }
            UploadState::VerifyRequired
        },
        _ => UploadState::VerifyRequired,
    }
}

/// The seconds after so many failed attempts: two, four, and so on up to 128.
pub open spec fn attempt_delay(failed_attempts: u32) -> int
    decreases failed_attempts,
{
    if failed_attempts == 0 {
        2
    } else if failed_attempts > 6 {
        attempt_delay(6)
    } else {
        2 * attempt_delay((failed_attempts - 1) as u32)
    }
}

/// The seconds after so many failed attempts.
pub fn delay_after(failed_attempts: u32) -> (seconds: u64)
    ensures
        seconds == attempt_delay(failed_attempts),
{
    let steps: u32 = if failed_attempts > 6 {
        6
    } else {
        failed_attempts
    };
    proof {
        reveal_with_fuel(attempt_delay, 9);
    }
    let mut seconds: u64 = 2;
    let mut i: u32 = 0;
    while i < steps
        invariant
            i <= steps <= 6,
            seconds == attempt_delay(i),
            seconds <= 128,
            i < 6 ==> seconds <= 64,
        decreases steps - i,
    {
        proof {
            reveal_with_fuel(attempt_delay, 9);
        }
        seconds = 2 * seconds;
        i = i + 1;
    }
    seconds
}

/// The seconds that a throttled provider asked for, and one more.
pub open spec fn throttled_delay(seconds: u64) -> u64 {
    if seconds == u64::MAX {
        u64::MAX
    } else {
        (seconds + 1) as u64
    }
}

/// How long a failed transfer waits.
pub open spec fn retry_delay(fault: TransferFault, failed_attempts: u32) -> int {
    match fault {
        TransferFault::Provider(UploadFault::Provider(ProviderFault::Throttled(seconds))) => {
            throttled_delay(seconds) as int
        },
        _ => attempt_delay(failed_attempts),
    }
}

/// How long a failed transfer waits, in seconds.
pub fn wait_after(fault: TransferFault, failed_attempts: u32) -> (seconds: u64)
    ensures
        seconds == retry_delay(fault, failed_attempts),
{
    match fault {
        TransferFault::Provider(UploadFault::Provider(ProviderFault::Throttled(seconds))) => {
            if seconds == u64::MAX {
                return u64::MAX;
            }
            seconds + 1
        },
        _ => delay_after(failed_attempts),
    }
}

/// The name under which the credential of an upload session is kept. It depends on the
/// operation alone, so that it is found again after a crash.
pub fn vault_key(id: Id) -> (key: String)
    ensures
        key@ == "upload/"@ + id_text(id),
{
    concat("upload/", write_id(id).as_str())
}

/// Whether a failed inspection means that the session is gone, so that the provider is
/// asked for the result instead.
pub fn session_lost(fault: UploadFault) -> (lost: bool)
    ensures
        lost == (fault == UploadFault::SessionGone || fault == UploadFault::CheckpointInvalid),
{
    fault == UploadFault::SessionGone || fault == UploadFault::CheckpointInvalid
}

/// How far a session is: the part that it wants next.
#[derive(Debug, Clone, Copy, PartialEq, Eq, Structural)]
pub struct PartRequest {
    pub offset: u64,
    pub length: u32,
}

/// The part lies in the payload and is not too long.
pub open spec fn part_fits(part: PartRequest, size: u64) -> bool {
    &&& 0 < part.length <= PART_LIMIT
    &&& part.offset < size
    &&& part.offset + part.length <= size
}

/// Refuses a part that does not lie in the payload.
pub fn check_part(part: PartRequest, size: u64) -> (result: Result<(), UploadFault>)
    ensures
        result == (if part_fits(part, size) {
            Ok::<(), UploadFault>(())
        } else {
            Err(UploadFault::Invalid)
        }),
{
    if part.length == 0 || part.length > PART_LIMIT || part.offset >= size || part.length as u64
        > size - part.offset {
        return Err(UploadFault::Invalid);
    }
    Ok(())
}

/// Refuses a session that asks again for bytes it has just taken.
pub fn check_progress(part: PartRequest, size: u64, next: Option<PartRequest>) -> (result: Result<
    (),
    UploadFault,
>)
    requires
        part_fits(part, size),
    ensures
        result == (if next is Some && next->0.offset < part.offset + part.length {
            Err::<(), UploadFault>(UploadFault::Uncertain)
        } else {
            Ok(())
        }),
{
    if let Some(next) = next {
        if next.offset < part.offset + part.length as u64 {
            return Err(UploadFault::Uncertain);
        }
    }
    Ok(())
}

/// After a commit only a completed upload is an answer.
pub fn check_commit(complete: bool) -> (result: Result<(), UploadFault>)
    ensures
        result == (if complete {
            Ok::<(), UploadFault>(())
        } else {
            Err(UploadFault::Uncertain)
        }),
{
    if complete {
        return Ok(());
    }
    Err(UploadFault::Uncertain)
}

/// A session that keeps its promises asks for every byte at most once, so that a
/// transfer of this size ends after at most as many parts as there are bytes left.
pub proof fn parts_advance(part: PartRequest, next: PartRequest, size: u64)
    requires
        part_fits(part, size),
        part_fits(next, size),
        next.offset >= part.offset + part.length,
    ensures
        size - next.offset < size - part.offset,
{
}

/// How far the provider says an upload is.
#[derive(Debug, Clone, Copy, PartialEq, Eq, Structural)]
pub enum UploadStep {
    /// It is there.
    Complete,
    /// Everything was sent and has to be committed.
    Commit,
    /// This part is wanted next.
    Continue(PartRequest),
}

/// What the provider found of an upload whose session is gone.
#[derive(Debug, Clone, Copy, PartialEq, Eq, Structural)]
pub enum Found {
    Committed,
    Conflict,
    Uncommitted,
}

/// Where a transfer stands.
#[derive(Debug, Clone, Copy, PartialEq, Eq, Structural)]
pub enum TransferStage {
    /// The credential of an earlier session is being loaded.
    Loading,
    /// The earlier session is being inspected.
    Inspecting,
    /// A session is being opened.
    Beginning,
    /// The provider is being asked for the result.
    Reconciling,
    /// The session is being written down before a part is sent.
    SavingPart(PartRequest),
    /// A part is being sent.
    Sending(PartRequest),
    /// The session is being written down before the upload is committed.
    SavingCommit,
    /// The upload is being committed.
    Committing,
    /// The receipt is being written down.
    Acknowledging,
    /// The operation is being put back.
    Restarting,
    /// The attempt is being deferred for this fault.
    Deferring(TransferFault),
    /// The transfer is over.
    Over,
}

/// What became of the last action.
#[derive(Debug, Clone, Copy, PartialEq, Eq)]
pub enum TransferEvent {
    /// Whether there is a credential.
    Loaded(Result<bool, TransferFault>),
    /// How far the upload is.
    Stepped(Result<UploadStep, TransferFault>),
    /// What the provider found.
    Found(Result<Found, TransferFault>),
    /// It is done, or failed.
    Done(Result<(), TransferFault>),
}

/// How a transfer ended.
#[derive(Debug, Clone, Copy, PartialEq, Eq, Structural)]
pub struct TransferEnd {
    pub state: UploadState,
    pub issue: Option<TransferFault>,
}

/// What to do next.
#[derive(Debug, Clone, Copy, PartialEq, Eq)]
pub enum TransferAction {
    /// Load the credential of the earlier session.
    Load,
    /// Inspect the earlier session.
    Inspect,
    /// Open a session.
    Begin,
    /// Ask for the result.
    Reconcile,
    /// Write down the session, which has this many bytes.
    Save(u64),
    /// Read this part of the payload and send it.
    Send(PartRequest),
    /// Commit the upload.
    Commit,
    /// Write down the receipt, and forget the credential.
    Acknowledge,
    /// Forget the credential, and put the operation back.
    Restart,
    /// Defer the attempt to this state, for so many seconds.
    Defer(UploadState, u64),
    /// The transfer is over.
    Finish(Result<TransferEnd, TransferFault>),
}

/// An upload under an attempt.
#[derive(Debug)]
pub struct Transfer {
    pub size: u64,
    pub failed_attempts: u32,
    pub stage: TransferStage,
}

/// A part that is being sent lies in the payload.
pub open spec fn in_payload(stage: TransferStage, size: u64) -> bool {
    match stage {
        TransferStage::SavingPart(part) => part_fits(part, size),
        TransferStage::Sending(part) => part_fits(part, size),
        _ => true,
    }
}

/// The event is an outcome of what was being done.
pub open spec fn transfer_fits(stage: TransferStage, event: TransferEvent) -> bool {
    match stage {
        TransferStage::Loading => event is Loaded,
        TransferStage::Inspecting
        | TransferStage::Beginning
        | TransferStage::Sending(_)
        | TransferStage::Committing => event is Stepped,
        TransferStage::Reconciling => event is Found,
        TransferStage::Over => false,
        _ => event is Done,
    }
}

/// A transfer that failed.
pub open spec fn transfer_failed(fault: TransferFault, failed_attempts: u32) -> (
    TransferStage,
    TransferAction,
) {
    (
        TransferStage::Deferring(fault),
        TransferAction::Defer(
            failed_state(fault),
            retry_delay(fault, failed_attempts) as u64,
        ),
    )
}

/// What follows from how far the upload is. A stopping account sends nothing more, and
/// what it sent is verified later.
pub open spec fn pursued(step: UploadStep, size: u64, failed_attempts: u32, cancelled: bool) -> (
    TransferStage,
    TransferAction,
) {
    if cancelled {
        transfer_failed(TransferFault::Provider(UploadFault::Uncertain), failed_attempts)
    } else {
        match step {
            UploadStep::Complete => (TransferStage::Acknowledging, TransferAction::Acknowledge),
            UploadStep::Commit => (TransferStage::SavingCommit, TransferAction::Save(size)),
            UploadStep::Continue(part) => if part_fits(part, size) {
                (TransferStage::SavingPart(part), TransferAction::Save(part.offset))
            } else {
                transfer_failed(TransferFault::Provider(UploadFault::Invalid), failed_attempts)
            },
        }
    }
}

/// The session asks again for bytes that it has just taken.
pub open spec fn goes_back(step: UploadStep, part: PartRequest) -> bool {
    step matches UploadStep::Continue(next) && next.offset < part.offset + part.length
}

/// What follows an event.
pub open spec fn transfer_stepped(
    stage: TransferStage,
    size: u64,
    failed_attempts: u32,
    event: TransferEvent,
    cancelled: bool,
) -> (TransferStage, TransferAction) {
    let uncertain = TransferFault::Provider(UploadFault::Uncertain);
    match (stage, event) {
        (TransferStage::Deferring(fault), TransferEvent::Done(Ok(_))) => (
            TransferStage::Over,
            TransferAction::Finish(
                Ok(TransferEnd { state: failed_state(fault), issue: Some(fault) }),
            ),
        ),
        (TransferStage::Deferring(_), TransferEvent::Done(Err(error))) => (
            TransferStage::Over,
            TransferAction::Finish(Err(error)),
        ),
        (TransferStage::Loading, TransferEvent::Loaded(Ok(found))) => if found {
            (TransferStage::Inspecting, TransferAction::Inspect)
        } else {
            (TransferStage::Reconciling, TransferAction::Reconcile)
        },
        (TransferStage::Inspecting, TransferEvent::Stepped(Err(fault))) => if fault
            == TransferFault::Provider(UploadFault::SessionGone) || fault
            == TransferFault::Provider(UploadFault::CheckpointInvalid) {
            (TransferStage::Reconciling, TransferAction::Reconcile)
        } else {
            transfer_failed(fault, failed_attempts)
        },
        (TransferStage::Sending(part), TransferEvent::Stepped(Ok(step))) => if goes_back(
            step,
            part,
        ) {
            transfer_failed(uncertain, failed_attempts)
        } else {
            pursued(step, size, failed_attempts, cancelled)
        },
        (TransferStage::Committing, TransferEvent::Stepped(Ok(step))) => if step
            != UploadStep::Complete {
            transfer_failed(uncertain, failed_attempts)
        } else {
            pursued(step, size, failed_attempts, cancelled)
        },
        (_, TransferEvent::Stepped(Ok(step))) => pursued(step, size, failed_attempts, cancelled),
        (_, TransferEvent::Found(Ok(found))) => match found {
            Found::Committed => pursued(UploadStep::Complete, size, failed_attempts, cancelled),
            Found::Conflict => transfer_failed(
                TransferFault::Provider(UploadFault::Conflict),
                failed_attempts,
            ),
            Found::Uncommitted => (TransferStage::Restarting, TransferAction::Restart),
        },
        (TransferStage::SavingPart(part), TransferEvent::Done(Ok(_))) => (
            TransferStage::Sending(part),
            TransferAction::Send(part),
        ),
        (TransferStage::SavingCommit, TransferEvent::Done(Ok(_))) => (
            TransferStage::Committing,
            TransferAction::Commit,
        ),
        (TransferStage::Acknowledging, TransferEvent::Done(Ok(_))) => (
            TransferStage::Over,
            TransferAction::Finish(Ok(TransferEnd { state: UploadState::Uploaded, issue: None })),
        ),
        (_, TransferEvent::Done(Ok(_))) => (
            TransferStage::Over,
            TransferAction::Finish(Ok(TransferEnd { state: UploadState::Pending, issue: None })),
        ),
        (_, TransferEvent::Loaded(Err(fault))) => transfer_failed(fault, failed_attempts),
        (_, TransferEvent::Stepped(Err(fault))) => transfer_failed(fault, failed_attempts),
        (_, TransferEvent::Found(Err(fault))) => transfer_failed(fault, failed_attempts),
        (_, TransferEvent::Done(Err(fault))) => transfer_failed(fault, failed_attempts),
        (_, TransferEvent::Loaded(Ok(_))) => (
            stage,
            TransferAction::Finish(Err(TransferFault::Worker)),
        ),
    }
}

impl Transfer {
    /// Starts the transfer that an attempt claimed. One that is being verified never
    /// opens a session first.
    pub fn start(size: u64, failed_attempts: u32, verifying: bool) -> (started: (
        Self,
        TransferAction,
    ))
        ensures
            started.0.size == size,
            started.0.failed_attempts == failed_attempts,
            (started.0.stage, started.1) == (if verifying {
                (TransferStage::Loading, TransferAction::Load)
            } else {
                (TransferStage::Beginning, TransferAction::Begin)
            }),
    {
        if verifying {
            return (
                Transfer { size, failed_attempts, stage: TransferStage::Loading },
                TransferAction::Load,
            );
        }
        (
            Transfer { size, failed_attempts, stage: TransferStage::Beginning },
            TransferAction::Begin,
        )
    }

    /// Notes a fault of the attempt.
    fn fail(&mut self, fault: TransferFault) -> (action: TransferAction)
        ensures
            final(self).size == old(self).size,
            final(self).failed_attempts == old(self).failed_attempts,
            (final(self).stage, action) == transfer_failed(fault, old(self).failed_attempts),
    {
        self.stage = TransferStage::Deferring(fault);
        TransferAction::Defer(state_after(fault), wait_after(fault, self.failed_attempts))
    }

    /// Goes on from how far the upload is.
    fn pursue(&mut self, step: UploadStep, cancelled: bool) -> (action: TransferAction)
        ensures
            final(self).size == old(self).size,
            final(self).failed_attempts == old(self).failed_attempts,
            (final(self).stage, action) == pursued(
                step,
                old(self).size,
                old(self).failed_attempts,
                cancelled,
            ),
            in_payload(final(self).stage, final(self).size),
    {
        if cancelled {
            return self.fail(TransferFault::Provider(UploadFault::Uncertain));
        }
        match step {
            UploadStep::Complete => {
                self.stage = TransferStage::Acknowledging;
                TransferAction::Acknowledge
            },
            UploadStep::Commit => {
                self.stage = TransferStage::SavingCommit;
                TransferAction::Save(self.size)
            },
            UploadStep::Continue(part) => match check_part(part, self.size) {
                Ok(_) => {
                    self.stage = TransferStage::SavingPart(part);
                    TransferAction::Save(part.offset)
                },
                Err(fault) => self.fail(TransferFault::Provider(fault)),
            },
        }
    }

    /// Goes on from the answer of the provider.
    fn follow(&mut self, step: UploadStep, cancelled: bool) -> (action: TransferAction)
        requires
            in_payload(old(self).stage, old(self).size),
            transfer_fits(old(self).stage, TransferEvent::Stepped(Ok(step))),
        ensures
            final(self).size == old(self).size,
            final(self).failed_attempts == old(self).failed_attempts,
            (final(self).stage, action) == transfer_stepped(
                old(self).stage,
                old(self).size,
                old(self).failed_attempts,
                TransferEvent::Stepped(Ok(step)),
                cancelled,
            ),
            in_payload(final(self).stage, final(self).size),
    {
        match self.stage {
            TransferStage::Sending(part) => {
                let next: Option<PartRequest> = match step {
                    UploadStep::Continue(next) => Some(next),
                    _ => None,
                };
                if let Err(fault) = check_progress(part, self.size, next) {
                    return self.fail(TransferFault::Provider(fault));
                }
                self.pursue(step, cancelled)
            },
            TransferStage::Committing => {
                if let Err(fault) = check_commit(step == UploadStep::Complete) {
                    return self.fail(TransferFault::Provider(fault));
                }
                self.pursue(step, cancelled)
            },
            _ => self.pursue(step, cancelled),
        }
    }

    /// Goes on after something was written down.
    fn written(&mut self, result: Result<(), TransferFault>) -> (action: TransferAction)
        requires
            in_payload(old(self).stage, old(self).size),
            transfer_fits(old(self).stage, TransferEvent::Done(result)),
        ensures
            final(self).size == old(self).size,
            final(self).failed_attempts == old(self).failed_attempts,
            forall|cancelled: bool|
                (final(self).stage, action) == #[trigger] transfer_stepped(
                    old(self).stage,
                    old(self).size,
                    old(self).failed_attempts,
                    TransferEvent::Done(result),
                    cancelled,
                ),
            in_payload(final(self).stage, final(self).size),
    {
        match (self.stage, result) {
            (TransferStage::Deferring(fault), Ok(_)) => {
                self.stage = TransferStage::Over;
                TransferAction::Finish(
                    Ok(TransferEnd { state: state_after(fault), issue: Some(fault) }),
                )
            },
            (TransferStage::Deferring(_), Err(error)) => {
                self.stage = TransferStage::Over;
                TransferAction::Finish(Err(error))
            },
            (TransferStage::SavingPart(part), Ok(_)) => {
                self.stage = TransferStage::Sending(part);
                TransferAction::Send(part)
            },
            (TransferStage::SavingCommit, Ok(_)) => {
                self.stage = TransferStage::Committing;
                TransferAction::Commit
            },
            (TransferStage::Acknowledging, Ok(_)) => {
                self.stage = TransferStage::Over;
                TransferAction::Finish(
                    Ok(TransferEnd { state: UploadState::Uploaded, issue: None }),
                )
            },
            (_, Ok(_)) => {
                self.stage = TransferStage::Over;
                TransferAction::Finish(Ok(TransferEnd { state: UploadState::Pending, issue: None }))
            },
            (_, Err(fault)) => self.fail(fault),
        }
    }

    /// Takes in what became of the last action and says what to do next.
    pub fn step(&mut self, event: TransferEvent, cancelled: bool) -> (action: TransferAction)
        requires
            in_payload(old(self).stage, old(self).size),
            transfer_fits(old(self).stage, event),
        ensures
            final(self).size == old(self).size,
            final(self).failed_attempts == old(self).failed_attempts,
            (final(self).stage, action) == transfer_stepped(
                old(self).stage,
                old(self).size,
                old(self).failed_attempts,
                event,
                cancelled,
            ),
            in_payload(final(self).stage, final(self).size),
    {
        match event {
            TransferEvent::Loaded(Ok(found)) => {
                if found {
                    self.stage = TransferStage::Inspecting;
                    return TransferAction::Inspect;
                }
                self.stage = TransferStage::Reconciling;
                TransferAction::Reconcile
            },
            TransferEvent::Loaded(Err(fault)) => self.fail(fault),
            TransferEvent::Stepped(Ok(step)) => self.follow(step, cancelled),
            TransferEvent::Stepped(Err(fault)) => {
                if let TransferFault::Provider(upload) = fault {
                    if self.stage == TransferStage::Inspecting && session_lost(upload) {
                        self.stage = TransferStage::Reconciling;
                        return TransferAction::Reconcile;
                    }
                }
                self.fail(fault)
            },
            TransferEvent::Found(Ok(found)) => match found {
                Found::Committed => self.pursue(UploadStep::Complete, cancelled),
                Found::Conflict => self.fail(TransferFault::Provider(UploadFault::Conflict)),
                Found::Uncommitted => {
                    self.stage = TransferStage::Restarting;
                    TransferAction::Restart
                },
            },
            TransferEvent::Found(Err(fault)) => self.fail(fault),
            TransferEvent::Done(result) => self.written(result),
        }
    }
}

/// Bytes are sent only from inside the payload, and only under a session that has been
/// written down: after a crash it is found again.
pub proof fn sessions_are_kept_before_bytes_are_sent(
    stage: TransferStage,
    size: u64,
    failed_attempts: u32,
    event: TransferEvent,
    cancelled: bool,
)
    requires
        in_payload(stage, size),
        transfer_fits(stage, event),
    ensures
        transfer_stepped(stage, size, failed_attempts, event, cancelled).1
            matches TransferAction::Send(part) ==> stage == TransferStage::SavingPart(part)
            && event->Done_0 is Ok && part_fits(part, size),
        transfer_stepped(stage, size, failed_attempts, event, cancelled).1 is Commit ==> stage
            == TransferStage::SavingCommit && event->Done_0 is Ok,
{
}

/// An upload counts as done only once its receipt is written down, and a session is
/// never opened by a transfer that is being verified.
pub proof fn uploads_are_done_when_acknowledged(
    stage: TransferStage,
    size: u64,
    failed_attempts: u32,
    event: TransferEvent,
    cancelled: bool,
)
    requires
        in_payload(stage, size),
        transfer_fits(stage, event),
    ensures
        ({
            let next = transfer_stepped(stage, size, failed_attempts, event, cancelled);
            &&& (next.1 matches TransferAction::Finish(Ok(end)) && end.state
                == UploadState::Uploaded) ==> stage == TransferStage::Acknowledging
            &&& !(next.1 is Begin)
        }),
{
}

/// The provider is asking for these bytes of the payload.
pub open spec fn lies_in(part: PartRequest, size: u64) -> bool {
    0 < part.length <= 16_777_216 && part.offset + part.length <= size
}

/// A live session is continued where the provider says: after it answered with a part of
/// the payload, the session is written down at the part's offset, and then exactly that
/// part is sent. This holds of a session that was just opened, of an interrupted one that
/// was looked up, and behind every part that it has taken.
pub proof fn live_sessions_are_continued(
    stage: TransferStage,
    size: u64,
    failed_attempts: u32,
    part: PartRequest,
    later: bool,
)
    requires
        lies_in(part, size),
        stage == TransferStage::Beginning || stage == TransferStage::Inspecting || (stage
            matches TransferStage::Sending(sent) && part.offset >= sent.offset + sent.length),
    ensures
        ({
            let answer = TransferEvent::Stepped(Ok(UploadStep::Continue(part)));
            let kept = transfer_stepped(stage, size, failed_attempts, answer, false);
            let sent = transfer_stepped(
                kept.0,
                size,
                failed_attempts,
                TransferEvent::Done(Ok(())),
                later,
            );
            &&& kept.1 == TransferAction::Save(part.offset)
            &&& sent.1 == TransferAction::Send(part)
            &&& sent.0 == TransferStage::Sending(part)
        }),
{
}

/// An upload that the provider has is acknowledged, and ends as uploaded once the receipt
/// is written down: at whatever request the provider said so.
pub proof fn complete_uploads_are_acknowledged(
    stage: TransferStage,
    size: u64,
    failed_attempts: u32,
    later: bool,
)
    requires
        stage == TransferStage::Beginning || stage == TransferStage::Inspecting || stage
            is Sending || stage == TransferStage::Committing || stage == TransferStage::Reconciling,
    ensures
        ({
            let answer = if stage == TransferStage::Reconciling {
                TransferEvent::Found(Ok(Found::Committed))
            } else {
                TransferEvent::Stepped(Ok(UploadStep::Complete))
            };
            let there = transfer_stepped(stage, size, failed_attempts, answer, false);
            let done = transfer_stepped(
                there.0,
                size,
                failed_attempts,
                TransferEvent::Done(Ok(())),
                later,
            );
            &&& there.1 == TransferAction::Acknowledge
            &&& done.1 == TransferAction::Finish(
                Ok(TransferEnd { state: UploadState::Uploaded, issue: None }),
            )
        }),
{
}

/// An upload whose bytes are all there is committed, after the session was written down
/// as complete.
pub proof fn whole_uploads_are_committed(
    stage: TransferStage,
    size: u64,
    failed_attempts: u32,
    later: bool,
)
    requires
        stage == TransferStage::Beginning || stage == TransferStage::Inspecting || stage
            is Sending,
    ensures
        ({
            let kept = transfer_stepped(
                stage,
                size,
                failed_attempts,
                TransferEvent::Stepped(Ok(UploadStep::Commit)),
                false,
            );
            let sent = transfer_stepped(
                kept.0,
                size,
                failed_attempts,
                TransferEvent::Done(Ok(())),
                later,
            );
            &&& kept.1 == TransferAction::Save(size)
            &&& sent.1 == TransferAction::Commit
            &&& sent.0 == TransferStage::Committing
        }),
{
}

/// An interrupted transfer looks its session up where its credential is kept, and asks for
/// the result where it is not, or where the session is gone. What the provider never got
/// goes back to the queue.
pub proof fn interrupted_transfers_look_first(
    size: u64,
    failed_attempts: u32,
    cancelled: bool,
    lost: UploadFault,
)
    requires
        lost == UploadFault::SessionGone || lost == UploadFault::CheckpointInvalid,
    ensures
        transfer_stepped(
            TransferStage::Loading,
            size,
            failed_attempts,
            TransferEvent::Loaded(Ok(true)),
            cancelled,
        ) == (TransferStage::Inspecting, TransferAction::Inspect),
        transfer_stepped(
            TransferStage::Loading,
            size,
            failed_attempts,
            TransferEvent::Loaded(Ok(false)),
            cancelled,
        ) == (TransferStage::Reconciling, TransferAction::Reconcile),
        transfer_stepped(
            TransferStage::Inspecting,
            size,
            failed_attempts,
            TransferEvent::Stepped(Err(TransferFault::Provider(lost))),
            cancelled,
        ) == (TransferStage::Reconciling, TransferAction::Reconcile),
        ({
            let back = transfer_stepped(
                TransferStage::Reconciling,
                size,
                failed_attempts,
                TransferEvent::Found(Ok(Found::Uncommitted)),
                cancelled,
            );
            &&& back.1 == TransferAction::Restart
            &&& transfer_stepped(
                back.0,
                size,
                failed_attempts,
                TransferEvent::Done(Ok(())),
                cancelled,
            ).1 == TransferAction::Finish(
                Ok(TransferEnd { state: UploadState::Pending, issue: None }),
            )
        }),
{
}

/// The fault of an event, where it reports one.
pub open spec fn reported(event: TransferEvent) -> Option<TransferFault> {
    match event {
        TransferEvent::Loaded(Err(fault)) => Some(fault),
        TransferEvent::Stepped(Err(fault)) => Some(fault),
        TransferEvent::Found(Err(fault)) => Some(fault),
        TransferEvent::Done(Err(fault)) => Some(fault),
        _ => None,
    }
}

/// An upload is put away as a conflict only where the provider reported one. It is put away
/// as failed only for a fault that does not pass, or where the session asked for bytes
/// that the payload does not have. In every other case it is verified later.
pub proof fn uploads_are_put_away_for_a_reason(
    stage: TransferStage,
    size: u64,
    failed_attempts: u32,
    event: TransferEvent,
    cancelled: bool,
)
    requires
        transfer_fits(stage, event),
    ensures
        transfer_stepped(stage, size, failed_attempts, event, cancelled).1
            matches TransferAction::Defer(state, delay) ==> {
            &&& state == UploadState::Conflict || state == UploadState::Failed || state
                == UploadState::VerifyRequired
            &&& state == UploadState::Conflict <==> reported(event) == Some(
                TransferFault::Provider(UploadFault::Conflict),
            ) || event == TransferEvent::Found(Ok(Found::Conflict))
            &&& state == UploadState::Failed ==> {
                ||| reported(event) == Some(TransferFault::Journal(JournalError::Corrupt))
                ||| reported(event) == Some(TransferFault::Provider(UploadFault::Invalid))
                ||| reported(event) == Some(TransferFault::Provider(UploadFault::Unsupported))
                ||| reported(event) == Some(TransferFault::Provider(UploadFault::Quota))
                ||| reported(event) == Some(
                    TransferFault::Provider(UploadFault::Provider(ProviderFault::Permission)),
                )
                ||| reported(event) == Some(
                    TransferFault::Provider(UploadFault::Provider(ProviderFault::NotFound)),
                )
                ||| reported(event) == Some(
                    TransferFault::Provider(UploadFault::Provider(ProviderFault::Authentication)),
                )
                ||| event matches TransferEvent::Stepped(Ok(UploadStep::Continue(part)))
                    && !lies_in(part, size)
            }
            &&& 2 <= delay || reported(event) == Some(
                TransferFault::Provider(UploadFault::Provider(ProviderFault::Throttled(0))),
            )
        },
        // A fault that does not pass is not tried again by itself.
        !(stage is Deferring) && (reported(event) == Some(
            TransferFault::Journal(JournalError::Corrupt),
        ) || reported(event) == Some(TransferFault::Provider(UploadFault::Invalid)) || reported(
            event,
        ) == Some(TransferFault::Provider(UploadFault::Unsupported)) || reported(event) == Some(
            TransferFault::Provider(UploadFault::Quota),
        ) || reported(event) == Some(
            TransferFault::Provider(UploadFault::Provider(ProviderFault::Permission)),
        ) || reported(event) == Some(
            TransferFault::Provider(UploadFault::Provider(ProviderFault::NotFound)),
        ) || reported(event) == Some(
            TransferFault::Provider(UploadFault::Provider(ProviderFault::Authentication)),
        )) ==> (transfer_stepped(stage, size, failed_attempts, event, cancelled).1
            matches TransferAction::Defer(state, _) && state == UploadState::Failed),
        // Only a reported fault, a conflict, a stop, or a session that breaks its promises
        // puts an upload away.
        transfer_stepped(stage, size, failed_attempts, event, cancelled).1 is Defer ==> {
            ||| reported(event) is Some
            ||| event == TransferEvent::Found(Ok(Found::Conflict))
            ||| cancelled
            ||| event matches TransferEvent::Stepped(Ok(UploadStep::Continue(part))) && !lies_in(
                part,
                size,
            )
            ||| stage == TransferStage::Committing && event != TransferEvent::Stepped(
                Ok(UploadStep::Complete),
            )
            ||| stage matches TransferStage::Sending(sent) && event
                matches TransferEvent::Stepped(Ok(UploadStep::Continue(part))) && part.offset
                < sent.offset + sent.length
        },
{
    reveal_with_fuel(attempt_delay, 9);
}

/// What a transfer is put away as is what it ends as, with the fault that caused it.
pub proof fn transfers_end_as_they_were_put_away(
    stage: TransferStage,
    size: u64,
    failed_attempts: u32,
    event: TransferEvent,
    cancelled: bool,
    later: bool,
)
    requires
        transfer_fits(stage, event),
        transfer_stepped(stage, size, failed_attempts, event, cancelled).1 is Defer,
    ensures
        ({
            let away = transfer_stepped(stage, size, failed_attempts, event, cancelled);
            let end = transfer_stepped(
                away.0,
                size,
                failed_attempts,
                TransferEvent::Done(Ok(())),
                later,
            );
            &&& end.1 matches TransferAction::Finish(Ok(last))
            &&& last.state == away.1->Defer_0
            &&& last.issue is Some
            &&& reported(event) is Some ==> last.issue == reported(event)
        }),
{
}

/// A stopping account sends nothing more: whatever the provider answers, the upload is
/// verified later.
pub proof fn stopping_accounts_send_nothing(
    stage: TransferStage,
    size: u64,
    failed_attempts: u32,
    step: UploadStep,
)
    requires
        stage == TransferStage::Beginning || stage == TransferStage::Inspecting || stage
            is Sending || stage == TransferStage::Committing,
    ensures
        transfer_stepped(stage, size, failed_attempts, TransferEvent::Stepped(Ok(step)), true).1
            matches TransferAction::Defer(state, _) && state == UploadState::VerifyRequired,
{
}

/// Failed attempts are spaced out: two seconds after the first, twice as many after each
/// further one, and never more than 128. A throttled provider is given the time that it
/// asked for.
pub proof fn attempts_are_spaced_out(fault: TransferFault, failed_attempts: u32, seconds: u64)
    ensures
        attempt_delay(0) == 2,
        failed_attempts < 6 ==> attempt_delay((failed_attempts + 1) as u32) == 2 * attempt_delay(
            failed_attempts,
        ),
        failed_attempts >= 6 ==> attempt_delay(failed_attempts) == 128,
        2 <= attempt_delay(failed_attempts) <= 128,
        retry_delay(
            TransferFault::Provider(UploadFault::Provider(ProviderFault::Throttled(seconds))),
            failed_attempts,
        ) > seconds || seconds == u64::MAX,
        retry_delay(
            TransferFault::Provider(UploadFault::Provider(ProviderFault::Throttled(seconds))),
            failed_attempts,
        ) <= seconds + 1,
        !(fault matches TransferFault::Provider(
            UploadFault::Provider(ProviderFault::Throttled(_)),
        )) ==> retry_delay(fault, failed_attempts) == attempt_delay(failed_attempts),
{
    reveal_with_fuel(attempt_delay, 9);
}

/// Every step has its cause: a result is asked for only where no session can be looked up, an
/// operation goes back to the queue only where the provider never got it, and a receipt is
/// written down only for an upload that the provider has.
pub proof fn steps_have_their_cause(
    stage: TransferStage,
    size: u64,
    failed_attempts: u32,
    event: TransferEvent,
    cancelled: bool,
)
    requires
        transfer_fits(stage, event),
    ensures
        ({
            let action = transfer_stepped(stage, size, failed_attempts, event, cancelled).1;
            &&& action is Restart <==> event == TransferEvent::Found(Ok(Found::Uncommitted))
            &&& action is Acknowledge ==> event == TransferEvent::Stepped(Ok(UploadStep::Complete))
                || event == TransferEvent::Found(Ok(Found::Committed))
            &&& action is Inspect <==> event == TransferEvent::Loaded(Ok(true))
            &&& action is Reconcile <==> event == TransferEvent::Loaded(Ok(false)) || (stage
                == TransferStage::Inspecting && (reported(event) == Some(
                TransferFault::Provider(UploadFault::SessionGone),
            ) || reported(event) == Some(
                TransferFault::Provider(UploadFault::CheckpointInvalid),
            )))
            &&& action is Save ==> event is Stepped && !cancelled
            &&& action is Finish ==> event is Done
        }),
{
}

/// A fault that is reported puts the upload away, unless it only says that an earlier session
/// is gone. A session that asks again for bytes that it took, or does not complete a commit,
/// is looked up later; one that asks for bytes beyond the payload has failed.
pub proof fn faults_put_uploads_away(
    stage: TransferStage,
    size: u64,
    failed_attempts: u32,
    event: TransferEvent,
    part: PartRequest,
    sent: PartRequest,
)
    requires
        transfer_fits(stage, event),
    ensures
        reported(event) is Some && !(stage is Deferring) && !(stage == TransferStage::Inspecting
            && (reported(event) == Some(TransferFault::Provider(UploadFault::SessionGone))
            || reported(event) == Some(TransferFault::Provider(UploadFault::CheckpointInvalid))))
            ==> transfer_stepped(stage, size, failed_attempts, event, false).1 is Defer,
        part.offset < sent.offset + sent.length ==> (transfer_stepped(
            TransferStage::Sending(sent),
            size,
            failed_attempts,
            TransferEvent::Stepped(Ok(UploadStep::Continue(part))),
            false,
        ).1 matches TransferAction::Defer(state, _) && state == UploadState::VerifyRequired),
        transfer_stepped(
            TransferStage::Committing,
            size,
            failed_attempts,
            TransferEvent::Stepped(Ok(UploadStep::Continue(part))),
            false,
        ).1 matches TransferAction::Defer(state, _) && state == UploadState::VerifyRequired,
        transfer_stepped(
            TransferStage::Committing,
            size,
            failed_attempts,
            TransferEvent::Stepped(Ok(UploadStep::Commit)),
            false,
        ).1 matches TransferAction::Defer(state, _) && state == UploadState::VerifyRequired,
        !lies_in(part, size) ==> (transfer_stepped(
            TransferStage::Inspecting,
            size,
            failed_attempts,
            TransferEvent::Stepped(Ok(UploadStep::Continue(part))),
            false,
        ).1 matches TransferAction::Defer(state, _) && state == UploadState::Failed),
{
}

/// An upload that may have reached the provider is looked up before anything is sent; any
/// other one opens a session.
pub proof fn verified_uploads_open_no_session(
    size: u64,
    failed_attempts: u32,
    verifying: bool,
    started: (Transfer, TransferAction),
)
    requires
        call_ensures(Transfer::start, (size, failed_attempts, verifying), started),
    ensures
        verifying ==> started.1 == TransferAction::Load,
        !verifying ==> started.1 == TransferAction::Begin,
        started.0.size == size,
        started.0.failed_attempts == failed_attempts,
{
}

} // verus!
