//! Uploads: queueing a sealed snapshot, claiming it for a transfer, and every
//! result that an attempt may end with. An attempt token fences delayed results.
use crate::journal::generations::{
    answered, follow_refusal, follows, successor_refusal, waiting,
};
use crate::journal::listing::{earliest, lemma_head, listing, select};
use crate::journal::queue::{
    barred, barrier_refusal, bound, depended, enqueued, stepped, upload_keys, upload_resources,
};
use crate::journal::receipts::upload_saved;
use crate::journal::records::{
    JournalError, JournalView, MutationRecord, MutationState, UploadJournal, UploadRecord,
    UploadState, WriteBase,
};
use crate::journal::sealing::{available, left, Sealed, Usage, FILE_LIMIT};
use crate::journal::tables::contend;
use crate::model::{content_revision, Id, Node, NodeKind, NodeView, Scope, UploadIntent};
use crate::outside::{fresh_id, now_seconds, SECOND_LIMIT};
use crate::text::optional_is;
use vstd::prelude::*;

verus! {

/// The largest page of a listing.
pub const PAGE_LIMIT: u32 = 1000;

/// Why an upload is refused before its bytes are looked at. `valid` is the verdict
/// on the intent.
pub open spec fn admission(
    journal: JournalView,
    scope: Scope,
    valid: bool,
    base: Option<WriteBase>,
    prerequisites: Seq<Id>,
) -> Option<JournalError> {
    if scope.account@ != journal.account {
        Some(JournalError::Account)
    } else if scope.provider@.len() == 0 || scope.collection@.len() == 0 || !valid {
        Some(JournalError::Intent)
    } else {
        let successor = match base {
            Some(base) => successor_refusal(journal, base.predecessor),
            None => None,
        };
        if successor is Some {
            successor
        } else {
            barrier_refusal(journal, scope@, prerequisites)
        }
    }
}

/// The snapshot does not fit into what the account may retain.
pub open spec fn overfull(quota: u64, usage: Usage, size: u64) -> bool {
    usage.files >= FILE_LIMIT || size > left(quota, usage.bytes)
}

/// An upload with nothing sent yet.
pub open spec fn new_upload(
    id: Id,
    scope: Scope,
    intent: UploadIntent,
    state: UploadState,
    sealed: Sealed,
    base: Option<WriteBase>,
    working_file: Option<Id>,
) -> UploadRecord {
    UploadRecord {
        id,
        sequence: 0,
        scope,
        intent,
        state,
        size: sealed.size,
        sha256: sealed.sha256,
        attempt: None,
        remote: None,
        base,
        working_file,
        session_key: None,
        transferred_bytes: 0,
        retry_at: 0,
        failed_attempts: 0,
    }
}

/// An upload takes its place in the queue, with its claims, its destination, its
/// base and its prerequisites.
pub open spec fn upload_queued(
    journal: JournalView,
    record: UploadRecord,
    prerequisites: Seq<Id>,
) -> Result<(JournalView, UploadRecord), JournalError> {
    match enqueued(journal, record.id, upload_keys(record.scope@, record.intent)) {
        Err(error) => Err(error),
        Ok(queued) => {
            let sequence = queued.last_sequence;
            let placed = match (record.base, record.intent) {
                (None, UploadIntent::Create { parent, .. }) => bound(
                    queued,
                    record.id,
                    sequence,
                    record.scope@,
                    parent@,
                ),
                _ => Ok(queued),
            };
            match placed {
                Err(error) => Err(error),
                Ok(placed) => match depended(placed, record.id, sequence, record.base) {
                    Err(error) => Err(error),
                    Ok(linked) => match barred(
                        linked,
                        record.id,
                        sequence,
                        record.scope@,
                        prerequisites,
                    ) {
                        Err(error) => Err(error),
                        Ok(ordered) => if ordered.uploads.contains_key(record.id) {
                            Err(JournalError::Storage)
                        } else {
                            let stored = UploadRecord { sequence, ..record };
                            Ok(
                                (
                                    JournalView {
                                        uploads: ordered.uploads.insert(record.id, stored),
                                        ..ordered
                                    },
                                    stored,
                                ),
                            )
                        },
                    },
                },
            }
        },
    }
}

/// A sealed snapshot becomes a pending upload.
pub open spec fn generation_enqueued(
    journal: JournalView,
    id: Id,
    scope: Scope,
    intent: UploadIntent,
    valid: bool,
    base: Option<WriteBase>,
    prerequisites: Seq<Id>,
    working_file: Option<Id>,
    usage: Usage,
    sealed: Sealed,
) -> Result<(JournalView, UploadRecord), JournalError> {
    match admission(journal, scope, valid, base, prerequisites) {
        Some(error) => Err(error),
        None => if overfull(journal.quota, usage, sealed.size) {
            Err(JournalError::Quota)
        } else {
            upload_queued(
                journal,
                new_upload(id, scope, intent, UploadState::Pending, sealed, base, working_file),
                prerequisites,
            )
        },
    }
}

/// An upload follows an operation's receipt.
pub open spec fn following(
    journal: JournalView,
    id: Id,
    predecessor: Id,
    prerequisites: Seq<Id>,
    scope: Scope,
    intent: UploadIntent,
    valid: bool,
    usage: Usage,
    sealed: Sealed,
) -> Result<(JournalView, UploadRecord), JournalError> {
    match follow_refusal(journal, predecessor) {
        Some(error) => Err(error),
        None => match successor_refusal(journal, predecessor) {
            Some(error) => Err(error),
            None => generation_enqueued(
                journal,
                id,
                scope,
                intent,
                valid,
                Some(WriteBase { predecessor, resolved: false }),
                prerequisites,
                None,
                usage,
                sealed,
            ),
        },
    }
}

/// Every prerequisite of an operation is complete.
pub open spec fn satisfied(journal: JournalView, id: Id) -> bool {
    forall|before: Id| #[trigger]
        journal.prerequisites.contains((id, before)) ==> journal.queue.contains_key(before)
            && journal.queue[before].complete
}

/// The destination of an operation has a provider identity.
pub open spec fn destination_ready(journal: JournalView, id: Id) -> bool {
    journal.destinations.contains_key(id) ==> journal.destinations[id].resolved
}

/// No replacement waits for its readers.
pub open spec fn replacement_ready(journal: JournalView, id: Id) -> bool {
    journal.replacements.contains_key(id) ==> journal.replacements[id].local_ready
}

/// The operation follows no receipt, or was bound to it.
pub open spec fn base_bound(base: Option<WriteBase>) -> bool {
    match base {
        Some(base) => base.resolved,
        None => true,
    }
}

/// An unfinished operation of an earlier place claims one of the resources.
pub open spec fn overtakes(journal: JournalView, id: Id, sequence: u64) -> bool {
    exists|other: Id| #[trigger]
        journal.queue.contains_key(other) && journal.queue[other].sequence < sequence
            && !journal.queue[other].complete && contend(journal.resources, other, id)
}

/// Nothing but its state holds an operation back.
pub open spec fn eligible(
    journal: JournalView,
    now: u64,
    id: Id,
    sequence: u64,
    base: Option<WriteBase>,
    retry_at: u64,
) -> bool {
    &&& destination_ready(journal, id)
    &&& base_bound(base)
    &&& satisfied(journal, id)
    &&& retry_at <= now
    &&& !overtakes(journal, id, sequence)
}

/// An upload in this state may be claimed.
pub open spec fn claimable(
    journal: JournalView,
    now: u64,
    state: UploadState,
    id: Id,
    record: UploadRecord,
) -> bool {
    record.state == state && replacement_ready(journal, id) && eligible(
        journal,
        now,
        id,
        record.sequence,
        record.base,
        record.retry_at,
    )
}

/// This upload is the next one in this state. One unresolved edit blocks later
/// edits of that identity; independent files may progress.
pub open spec fn next_upload(journal: JournalView, now: u64, state: UploadState, id: Id) -> bool {
    !waiting(journal) && earliest(
        journal.uploads,
        |id: Id, record: UploadRecord| claimable(journal, now, state, id, record),
        id,
    )
}

/// What the search for the next upload found.
pub open spec fn next_found(
    journal: JournalView,
    now: u64,
    state: UploadState,
    found: Option<Id>,
) -> bool {
    match found {
        Some(id) => next_upload(journal, now, state, id),
        None => forall|id: Id| !(#[trigger] next_upload(journal, now, state, id)),
    }
}

/// The upload is handed to a transfer.
pub open spec fn transferring(record: UploadRecord, attempt: Id) -> UploadRecord {
    UploadRecord { state: UploadState::Uploading, attempt: Some(attempt), ..record }
}

/// What claiming an upload does. A payload that failed verification fails the
/// upload and gives that error; an upload that is not the next one is left alone.
pub open spec fn claimed_next(
    journal: JournalView,
    now: u64,
    attempt: Id,
    id: Id,
    payload: Result<(), JournalError>,
    result: Result<Option<UploadRecord>, JournalError>,
    after: JournalView,
) -> bool {
    if !next_upload(journal, now, UploadState::Pending, id) {
        result == Ok::<Option<UploadRecord>, JournalError>(None) && after == journal
    } else {
        let record = journal.uploads[id];
        match payload {
            Ok(()) => match upload_saved(journal, transferring(record, attempt)) {
                Ok(state) => result == Ok::<Option<UploadRecord>, JournalError>(
                    Some(transferring(record, attempt)),
                ) && after == state,
                Err(error) => result == Err::<Option<UploadRecord>, JournalError>(error) && after
                    == journal,
            },
            Err(failure) => match upload_saved(
                journal,
                UploadRecord { state: UploadState::Failed, ..record },
            ) {
                Ok(state) => result == Err::<Option<UploadRecord>, JournalError>(failure) && after
                    == state,
                Err(error) => result == Err::<Option<UploadRecord>, JournalError>(error) && after
                    == journal,
            },
        }
    }
}

/// The upload is held by this attempt.
pub open spec fn held(journal: JournalView, id: Id, attempt: Id) -> Result<
    UploadRecord,
    JournalError,
> {
    if !journal.uploads.contains_key(id) {
        Err(JournalError::Missing)
    } else {
        let record = journal.uploads[id];
        if (record.state == UploadState::Uploading || record.state == UploadState::Verifying)
            && record.attempt == Some(attempt) {
            Ok(record)
        } else {
            Err(JournalError::Stale)
        }
    }
}

/// The transfer got this far.
pub open spec fn session_recorded(
    journal: JournalView,
    id: Id,
    attempt: Id,
    key: Id,
    transferred: u64,
) -> Result<JournalView, JournalError> {
    match held(journal, id, attempt) {
        Err(error) => Err(error),
        Ok(record) => if transferred > record.size {
            Err(JournalError::Stale)
        } else {
            upload_saved(
                journal,
                UploadRecord {
                    session_key: Some(key),
                    transferred_bytes: transferred,
                    state: UploadState::Uploading,
                    ..record
                },
            )
        },
    }
}

/// When an operation may be tried again.
pub open spec fn retry_time(now: u64, delay: u64) -> u64 {
    if now + delay < SECOND_LIMIT {
        (now + delay) as u64
    } else {
        SECOND_LIMIT
    }
}

/// When an operation may be tried again.
pub fn retry_second(now: u64, delay: u64) -> (second: u64)
    ensures
        second == retry_time(now, delay),
{
    match now.checked_add(delay) {
        Some(second) => if second < SECOND_LIMIT {
            second
        } else {
            SECOND_LIMIT
        },
        None => SECOND_LIMIT,
    }
}

/// One more than a counter that stops at its end.
pub open spec fn counted(count: u32) -> u32 {
    if count == u32::MAX {
        count
    } else {
        (count + 1) as u32
    }
}

/// One more than a counter that stops at its end.
pub fn count_one(count: u32) -> (next: u32)
    ensures
        next == counted(count),
{
    if count == u32::MAX {
        count
    } else {
        count + 1
    }
}

/// An attempt ended without a receipt.
pub open spec fn attempt_deferred(
    journal: JournalView,
    now: u64,
    id: Id,
    attempt: Id,
    state: UploadState,
    delay: u64,
) -> Result<JournalView, JournalError> {
    if state != UploadState::VerifyRequired && state != UploadState::Conflict && state
        != UploadState::Failed {
        Err(JournalError::Stale)
    } else {
        match held(journal, id, attempt) {
            Err(error) => Err(error),
            Ok(record) => upload_saved(
                journal,
                UploadRecord {
                    state,
                    attempt: None,
                    retry_at: retry_time(now, delay),
                    failed_attempts: counted(record.failed_attempts),
                    ..record
                },
            ),
        }
    }
}

/// The old attempt was proved not to have committed; `payload` says whether the
/// bytes are still intact.
pub open spec fn retried(journal: JournalView, id: Id, payload: Result<(), JournalError>) -> Result<
    JournalView,
    JournalError,
> {
    if !journal.uploads.contains_key(id) {
        Err(JournalError::Missing)
    } else {
        let record = journal.uploads[id];
        if record.state != UploadState::VerifyRequired && record.state != UploadState::Failed {
            Err(JournalError::Stale)
        } else {
            match payload {
                Err(error) => Err(error),
                Ok(()) => upload_saved(
                    journal,
                    UploadRecord {
                        state: UploadState::Pending,
                        attempt: None,
                        retry_at: 0,
                        session_key: None,
                        transferred_bytes: 0,
                        ..record
                    },
                ),
            }
        }
    }
}

/// A user's retry requests verification, never a blind replay.
pub open spec fn retry_requested(journal: JournalView, id: Id) -> Result<JournalView, JournalError> {
    if !journal.uploads.contains_key(id) {
        Err(JournalError::Missing)
    } else {
        let record = journal.uploads[id];
        if !base_bound(record.base) || (record.state != UploadState::Failed && record.state
            != UploadState::VerifyRequired) {
            Err(JournalError::Stale)
        } else {
            upload_saved(
                journal,
                UploadRecord { state: UploadState::VerifyRequired, retry_at: 0, ..record },
            )
        }
    }
}

/// An uncertain upload is reserved for read-only reconciliation.
pub open spec fn verification_claimed(journal: JournalView, attempt: Id, id: Id) -> Result<
    (JournalView, UploadRecord),
    JournalError,
> {
    if !journal.uploads.contains_key(id) {
        Err(JournalError::Missing)
    } else {
        let record = journal.uploads[id];
        if record.state != UploadState::VerifyRequired || !base_bound(record.base) || !satisfied(
            journal,
            id,
        ) || !replacement_ready(journal, id) || !destination_ready(journal, id) {
            Err(JournalError::Stale)
        } else {
            let claimed = UploadRecord {
                state: UploadState::Verifying,
                attempt: Some(attempt),
                ..record
            };
            match upload_saved(journal, claimed) {
                Err(error) => Err(error),
                Ok(state) => Ok((state, claimed)),
            }
        }
    }
}

/// What claiming the next uncertain upload does.
pub open spec fn next_verified(
    journal: JournalView,
    now: u64,
    attempt: Id,
    result: Result<Option<UploadRecord>, JournalError>,
    after: JournalView,
) -> bool {
    if exists|id: Id| next_upload(journal, now, UploadState::VerifyRequired, id) {
        exists|id: Id| #[trigger]
            next_upload(journal, now, UploadState::VerifyRequired, id) && match (
                verification_claimed(journal, attempt, id),
                result,
            ) {
                (Ok((state, record)), Ok(Some(found))) => found == record && after == state,
                (Err(wanted), Err(error)) => wanted == error && after == journal,
                _ => false,
            }
    } else {
        result == Ok::<Option<UploadRecord>, JournalError>(None) && after == journal
    }
}

/// The provider's node is what the upload was to leave there.
pub open spec fn fits_upload(record: UploadRecord, remote: NodeView) -> bool {
    &&& match record.intent {
        UploadIntent::Create { parent, name } => remote.name == name@ && remote.parent_id == Some(
            parent@,
        ),
        UploadIntent::Replace { item, .. } => remote.id == item@,
    }
    &&& remote.id.len() > 0
    &&& remote.kind == NodeKind::File
    &&& remote.target is None
    &&& remote.size == record.size
    &&& content_revision(remote) is Some
}

/// A receipt completes an upload.
pub open spec fn upload_acknowledged(journal: JournalView, id: Id, attempt: Id, remote: Node) -> Result<
    JournalView,
    JournalError,
> {
    match held(journal, id, attempt) {
        Err(error) => Err(error),
        Ok(record) => if !fits_upload(record, remote@) {
            Err(JournalError::Corrupt)
        } else {
            upload_saved(
                journal,
                UploadRecord {
                    remote: Some(remote),
                    state: UploadState::Uploaded,
                    transferred_bytes: record.size,
                    attempt: None,
                    ..record
                },
            )
        },
    }
}

/// How long a page may be.
pub open spec fn page_limit(limit: u32) -> int {
    if limit < 1 {
        1
    } else if limit > PAGE_LIMIT {
        PAGE_LIMIT as int
    } else {
        limit as int
    }
}

/// How long a page may be.
pub fn page_size(limit: u32) -> (size: usize)
    ensures
        size == page_limit(limit),
{
    if limit < 1 {
        1
    } else if limit > PAGE_LIMIT {
        PAGE_LIMIT as usize
    } else {
        limit as usize
    }
}

/// The uploads behind a place.
pub open spec fn uploads_behind(after: u64) -> spec_fn(Id, UploadRecord) -> bool {
    |id: Id, record: UploadRecord| record.sequence > after
}

/// The shorter of two lengths.
pub open spec fn shorter(a: int, b: int) -> int {
    if a < b {
        a
    } else {
        b
    }
}

/// Why a payload cannot be read for this upload.
pub open spec fn payload_refusal(record: UploadRecord) -> bool {
    record.state == UploadState::Preparing || vstd::utf8::encode_utf8(record.sha256@).len() != 64
}

/// A row after a restart: an interrupted attempt requires verification.
pub open spec fn recovered_upload(record: UploadRecord) -> UploadRecord {
    match record.state {
        UploadState::Uploading | UploadState::Verifying => UploadRecord {
            state: UploadState::VerifyRequired,
            attempt: None,
            ..record
        },
        UploadState::Preparing => UploadRecord { attempt: None, ..record },
        _ => record,
    }
}

/// A row after a restart: an interrupted attempt requires verification.
pub open spec fn recovered_mutation(record: MutationRecord) -> MutationRecord {
    match record.state {
        MutationState::Applying | MutationState::Verifying => MutationRecord {
            state: MutationState::VerifyRequired,
            attempt: None,
            ..record
        },
        _ => record,
    }
}

/// The journal after a restart.
pub open spec fn attempts_recovered(journal: JournalView) -> JournalView {
    JournalView {
        uploads: journal.uploads.map_values(|record: UploadRecord| recovered_upload(record)),
        mutations: journal.mutations.map_values(
            |record: MutationRecord| recovered_mutation(record),
        ),
        ..journal
    }
}

impl UploadJournal {
    /// Gives an upload its place in the queue.
    pub fn queue_upload(&mut self, record: UploadRecord, prerequisites: &Vec<Id>) -> (result: Result<
        UploadRecord,
        JournalError,
    >)
        ensures
            answered(
                upload_queued(old(self)@, record, prerequisites@),
                result,
                old(self)@,
                final(self)@,
            ),
    {
        let mut record = record;
        let keys = upload_resources(&record.scope, &record.intent);
        let mut tx = self.copy();
        tx.queue_insert(record.id, keys)?;
        let sequence: u64 = tx.last_sequence;
        if record.base.is_none() {
            if let UploadIntent::Create { parent, .. } = &record.intent {
                tx.bind_destination(record.id, sequence, &record.scope, parent.as_str())?;
            }
        }
        tx.insert_dependency(record.id, sequence, record.base)?;
        tx.insert_prerequisites(record.id, sequence, &record.scope, prerequisites)?;
        if tx.uploads.has(record.id) {
            return Err(JournalError::Storage);
        }
        record.sequence = sequence;
        tx.uploads.put(record.id, record.clone());
        *self = tx;
        Ok(record)
    }

    /// Refuses an upload before its bytes are looked at.
    pub fn admit_upload(
        &self,
        scope: &Scope,
        valid: bool,
        base: Option<WriteBase>,
        prerequisites: &Vec<Id>,
    ) -> (result: Result<(), JournalError>)
        ensures
            match result {
                Ok(()) => admission(self@, *scope, valid, base, prerequisites@) is None,
                Err(error) => admission(self@, *scope, valid, base, prerequisites@) == Some(error),
            },
    {
        if scope.account != self.account {
            return Err(JournalError::Account);
        }
        if scope.provider.as_str().is_empty() || scope.collection.as_str().is_empty() || !valid {
            return Err(JournalError::Intent);
        }
        if let Some(base) = base {
            self.ensure_successor_free(base.predecessor)?;
        }
        self.validate_prerequisites(scope, prerequisites)
    }

    /// Queues a sealed snapshot under a given identity.
    pub fn enqueue_generation(
        &mut self,
        id: Id,
        scope: Scope,
        intent: UploadIntent,
        valid: bool,
        base: Option<WriteBase>,
        prerequisites: &Vec<Id>,
        working_file: Option<Id>,
        usage: Usage,
        sealed: Sealed,
    ) -> (result: Result<UploadRecord, JournalError>)
        ensures
            answered(
                generation_enqueued(
                    old(self)@,
                    id,
                    scope,
                    intent,
                    valid,
                    base,
                    prerequisites@,
                    working_file,
                    usage,
                    sealed,
                ),
                result,
                old(self)@,
                final(self)@,
            ),
    {
        self.admit_upload(&scope, valid, base, prerequisites)?;
        if usage.files >= FILE_LIMIT || sealed.size > available(self.quota, usage.bytes) {
            return Err(JournalError::Quota);
        }
        let record = UploadRecord {
            id,
            sequence: 0,
            scope,
            intent,
            state: UploadState::Pending,
            size: sealed.size,
            sha256: sealed.sha256,
            attempt: None,
            remote: None,
            base,
            working_file,
            session_key: None,
            transferred_bytes: 0,
            retry_at: 0,
            failed_attempts: 0,
        };
        self.queue_upload(record, prerequisites)
    }

    /// Queues a sealed snapshot. `valid` is the verdict on the intent.
    pub fn enqueue(
        &mut self,
        scope: Scope,
        intent: UploadIntent,
        valid: bool,
        usage: Usage,
        sealed: Sealed,
    ) -> (result: Result<UploadRecord, JournalError>)
        ensures
            exists|id: Id|
                answered(
                    #[trigger] generation_enqueued(
                        old(self)@,
                        id,
                        scope,
                        intent,
                        valid,
                        None,
                        Seq::empty(),
                        None,
                        usage,
                        sealed,
                    ),
                    result,
                    old(self)@,
                    final(self)@,
                ),
    {
        let none: Vec<Id> = Vec::new();
        self.enqueue_generation(fresh_id(), scope, intent, valid, None, &none, None, usage, sealed)
    }

    /// Queues a newer save under a given identity, behind a save or a relocation.
    pub fn enqueue_following(
        &mut self,
        id: Id,
        predecessor: Id,
        prerequisites: &Vec<Id>,
        valid: bool,
        usage: Usage,
        sealed: Sealed,
    ) -> (result: Result<UploadRecord, JournalError>)
        ensures
            match follow_refusal(old(self)@, predecessor) {
                Some(error) => result == Err::<UploadRecord, JournalError>(error) && final(self)@
                    == old(self)@,
                None => exists|scope: Scope, intent: UploadIntent| #[trigger]
                    follows(old(self)@, predecessor, scope, intent) && answered(
                        following(
                            old(self)@,
                            id,
                            predecessor,
                            prerequisites@,
                            scope,
                            intent,
                            valid,
                            usage,
                            sealed,
                        ),
                        result,
                        old(self)@,
                        final(self)@,
                    ),
            },
    {
        let (scope, intent) = self.upload_intent_after(predecessor)?;
        proof {
            assert(follows(self@, predecessor, scope, intent));
        }
        self.ensure_successor_free(predecessor)?;
        self.enqueue_generation(
            id,
            scope,
            intent,
            valid,
            Some(WriteBase { predecessor, resolved: false }),
            prerequisites,
            None,
            usage,
            sealed,
        )
    }

    /// Queues a newer save behind one confirmed content base, and behind operations
    /// on other objects. An ordering prerequisite never substitutes its identity or
    /// tag for that of the base.
    pub fn enqueue_after_all(
        &mut self,
        predecessor: Id,
        prerequisites: &Vec<Id>,
        valid: bool,
        usage: Usage,
        sealed: Sealed,
    ) -> (result: Result<UploadRecord, JournalError>)
        ensures
            match follow_refusal(old(self)@, predecessor) {
                Some(error) => result == Err::<UploadRecord, JournalError>(error) && final(self)@
                    == old(self)@,
                None => exists|id: Id, scope: Scope, intent: UploadIntent|
                    follows(old(self)@, predecessor, scope, intent) && answered(
                        #[trigger] following(
                            old(self)@,
                            id,
                            predecessor,
                            prerequisites@,
                            scope,
                            intent,
                            valid,
                            usage,
                            sealed,
                        ),
                        result,
                        old(self)@,
                        final(self)@,
                    ),
            },
    {
        self.enqueue_following(fresh_id(), predecessor, prerequisites, valid, usage, sealed)
    }

    /// Queues a newer save after a save or a file relocation.
    pub fn enqueue_after(&mut self, predecessor: Id, valid: bool, usage: Usage, sealed: Sealed) -> (result:
        Result<UploadRecord, JournalError>)
        ensures
            match follow_refusal(old(self)@, predecessor) {
                Some(error) => result == Err::<UploadRecord, JournalError>(error) && final(self)@
                    == old(self)@,
                None => exists|id: Id, scope: Scope, intent: UploadIntent|
                    follows(old(self)@, predecessor, scope, intent) && answered(
                        #[trigger] following(
                            old(self)@,
                            id,
                            predecessor,
                            Seq::<Id>::empty(),
                            scope,
                            intent,
                            valid,
                            usage,
                            sealed,
                        ),
                        result,
                        old(self)@,
                        final(self)@,
                    ),
            },
    {
        let none: Vec<Id> = Vec::new();
        self.enqueue_after_all(predecessor, &none, valid, usage, sealed)
    }

    /// The uploads behind a place, in order.
    pub fn list(&self, after: u64, limit: u32) -> (page: Vec<UploadRecord>)
        ensures
            exists|rows: Seq<(u64, Id)>| #[trigger]
                listing(self@.uploads, uploads_behind(after), rows) && page@.len() == shorter(
                    rows.len() as int,
                    page_limit(limit),
                ) && forall|i: int|
                    0 <= i < page@.len() ==> #[trigger] page@[i] == self@.uploads[rows[i].1],
    {
        let keep = |id: Id, record: &UploadRecord| -> (kept: bool)
            ensures
                kept == (record.sequence > after),
            { record.sequence > after };
        let ghost wanted = uploads_behind(after);
        let rows = select(&self.uploads, keep, Ghost(wanted));
        let size = page_size(limit);
        let mut page: Vec<UploadRecord> = Vec::new();
        let mut i: usize = 0;
        while i < rows.len() && i < size
            invariant
                i <= rows@.len(),
                i <= size,
                size == page_limit(limit),
                page@.len() == i,
                listing(self@.uploads, wanted, rows@),
                forall|j: int| 0 <= j < i ==> #[trigger] page@[j] == self@.uploads[rows@[j].1],
            decreases rows@.len() - i,
        {
            proof {
                assert(rows@.contains(rows@[i as int]));
            }
            if let Some(record) = self.uploads.get(rows[i].1) {
                page.push(record.clone());
            }
            i = i + 1;
        }
        page
    }

    /// Whether every prerequisite of an operation is complete.
    pub fn prerequisites_satisfied(&self, id: Id) -> (done: bool)
        ensures
            done == satisfied(self@, id),
    {
        let ids = self.prerequisites.of(id);
        let mut i: usize = 0;
        while i < ids.len()
            invariant
                i <= ids@.len(),
                forall|before: Id|
                    ids@.contains(before) <==> self@.prerequisites.contains((id, before)),
                forall|j: int|
                    0 <= j < i ==> self@.queue.contains_key(#[trigger] ids@[j])
                        && self@.queue[ids@[j]].complete,
            decreases ids@.len() - i,
        {
            proof {
                assert(ids@.contains(ids@[i as int]));
                assert(self@.prerequisites.contains((id, ids@[i as int])));
            }
            match self.queue.get(ids[i]) {
                Some(row) => {
                    if !row.complete {
                        return false;
                    }
                },
                None => {
                    return false;
                },
            }
            i = i + 1;
        }
        proof {
            assert forall|before: Id| #[trigger] self@.prerequisites.contains((id, before)) implies
                self@.queue.contains_key(before) && self@.queue[before].complete by {
                assert(ids@.contains(before));
                let j = choose|j: int| 0 <= j < ids@.len() && ids@[j] == before;
                assert(self@.queue.contains_key(ids@[j]));
            }
        }
        true
    }

    /// The prerequisites of a queued operation, in the order of their identities.
    pub fn operation_prerequisites(&self, id: Id) -> (result: Result<Vec<Id>, JournalError>)
        ensures
            match result {
                Ok(ids) => self@.queue.contains_key(id) && crate::journal::tables::increasing(ids@)
                    && forall|before: Id| #[trigger]
                    ids@.contains(before) <==> self@.prerequisites.contains((id, before)),
                Err(error) => error == JournalError::Missing && !self@.queue.contains_key(id),
            },
    {
        if !self.queue.has(id) {
            return Err(JournalError::Missing);
        }
        Ok(self.prerequisites.of(id))
    }

    /// Whether the destination of an operation has a provider identity.
    pub fn is_destination_ready(&self, id: Id) -> (ready: bool)
        ensures
            ready == destination_ready(self@, id),
    {
        match self.destinations.get(id) {
            Some(destination) => destination.resolved,
            None => true,
        }
    }

    /// Whether no replacement waits for its readers.
    pub fn is_replacement_ready(&self, id: Id) -> (ready: bool)
        ensures
            ready == replacement_ready(self@, id),
    {
        match self.replacements.get(id) {
            Some(record) => record.local_ready,
            None => true,
        }
    }

    /// Whether an unfinished operation of an earlier place claims one of the
    /// resources.
    fn would_overtake(&self, id: Id, sequence: u64) -> (found: bool)
        ensures
            found == overtakes(self@, id, sequence),
    {
        let ids = self.queue.ids();
        let mut i: usize = 0;
        while i < ids.len()
            invariant
                i <= ids@.len(),
                forall|k: Id| ids@.contains(k) <==> self@.queue.contains_key(k),
                forall|j: int| 0 <= j < ids@.len() ==> self@.queue.contains_key(#[trigger] ids@[j]),
                forall|j: int|
                    #![trigger ids@[j]]
                    0 <= j < i ==> !(self@.queue[ids@[j]].sequence < sequence
                        && !self@.queue[ids@[j]].complete && contend(
                        self@.resources,
                        ids@[j],
                        id,
                    )),
            decreases ids@.len() - i,
        {
            let other = ids[i];
            assert(self@.queue.contains_key(ids@[i as int]));
            if let Some(row) = self.queue.get(other) {
                if row.sequence < sequence && !row.complete && self.resources.contend(other, id) {
                    return true;
                }
            }
            i = i + 1;
        }
        proof {
            assert forall|other: Id| #[trigger] self@.queue.contains_key(other) implies !(
            self@.queue[other].sequence < sequence && !self@.queue[other].complete && contend(
                self@.resources,
                other,
                id,
            )) by {
                assert(ids@.contains(other));
                let j = choose|j: int| 0 <= j < ids@.len() && ids@[j] == other;
                assert(ids@[j] == other);
            }
        }
        false
    }

    /// Whether nothing but its state holds an operation back.
    pub fn is_eligible(
        &self,
        now: u64,
        id: Id,
        sequence: u64,
        base: &Option<WriteBase>,
        retry_at: u64,
    ) -> (ready: bool)
        ensures
            ready == eligible(self@, now, id, sequence, *base, retry_at),
    {
        let bound_base = match base {
            Some(base) => base.resolved,
            None => true,
        };
        self.is_destination_ready(id) && bound_base && self.prerequisites_satisfied(id) && retry_at
            <= now && !self.would_overtake(id, sequence)
    }

    /// The next upload in a state at a given second.
    pub fn next_upload_at(&self, now: u64, state: UploadState) -> (found: Option<Id>)
        ensures
            next_found(self@, now, state, found),
    {
        if self.is_waiting() {
            return None;
        }
        let keep = |id: Id, record: &UploadRecord| -> (kept: bool)
            ensures
                kept == claimable(self@, now, state, id, *record),
            {
                record.state == state && self.is_replacement_ready(id) && self.is_eligible(
                    now,
                    id,
                    record.sequence,
                    &record.base,
                    record.retry_at,
                )
            };
        let ghost wanted = |id: Id, record: UploadRecord| claimable(self@, now, state, id, record);
        let rows = select(&self.uploads, keep, Ghost(wanted));
        proof {
            lemma_head(self@.uploads, wanted, rows@);
        }
        if rows.len() > 0 {
            Some(rows[0].1)
        } else {
            None
        }
    }

    /// The next upload whose payload a transfer worker should verify and claim.
    pub fn next_pending(&self) -> (found: Option<Id>)
        ensures
            exists|now: u64| #[trigger] next_found(self@, now, UploadState::Pending, found),
    {
        self.next_upload_at(now_seconds(), UploadState::Pending)
    }

    /// Claims the next upload at a given second under a given attempt.
    pub fn claim_upload(
        &mut self,
        now: u64,
        attempt: Id,
        id: Id,
        payload: Result<(), JournalError>,
    ) -> (result: Result<Option<UploadRecord>, JournalError>)
        ensures
            claimed_next(old(self)@, now, attempt, id, payload, result, final(self)@),
    {
        match self.next_upload_at(now, UploadState::Pending) {
            Some(next) => {
                proof {
                    lemma_one_next(self@, now, UploadState::Pending, next, id);
                }
                if next != id {
                    return Ok(None);
                }
            },
            None => {
                return Ok(None);
            },
        }
        let mut record = self.get(id)?;
        if let Err(failure) = payload {
            record.state = UploadState::Failed;
            self.save_upload(record)?;
            return Err(failure);
        }
        record.state = UploadState::Uploading;
        record.attempt = Some(attempt);
        self.save_upload(record.clone())?;
        Ok(Some(record))
    }

    /// Claims the next upload. `payload` is the verdict on its stored bytes. The
    /// caller drops its lock on the journal before it sends anything.
    pub fn claim_next(&mut self, id: Id, payload: Result<(), JournalError>) -> (result: Result<
        Option<UploadRecord>,
        JournalError,
    >)
        ensures
            exists|now: u64, attempt: Id| #[trigger]
                claimed_next(old(self)@, now, attempt, id, payload, result, final(self)@),
    {
        let now = now_seconds();
        let attempt = fresh_id();
        self.claim_upload(now, attempt, id, payload)
    }

    /// The upload that an attempt holds.
    fn active_attempt(&self, id: Id, attempt: Id) -> (result: Result<UploadRecord, JournalError>)
        ensures
            result == held(self@, id, attempt),
    {
        let record = self.get(id)?;
        let current = match record.attempt {
            Some(token) => token == attempt,
            None => false,
        };
        if (record.state == UploadState::Uploading || record.state == UploadState::Verifying)
            && current {
            Ok(record)
        } else {
            Err(JournalError::Stale)
        }
    }

    /// Records a credential reference and verified progress. The checkpoint itself
    /// must already be saved to the credential vault.
    pub fn record_session(&mut self, id: Id, attempt: Id, key: Id, transferred: u64) -> (result:
        Result<(), JournalError>)
        ensures
            stepped(
                session_recorded(old(self)@, id, attempt, key, transferred),
                result,
                old(self)@,
                final(self)@,
            ),
    {
        let mut record = self.active_attempt(id, attempt)?;
        if transferred > record.size {
            return Err(JournalError::Stale);
        }
        record.session_key = Some(key);
        record.transferred_bytes = transferred;
        record.state = UploadState::Uploading;
        self.save_upload(record)
    }

    /// Ends an attempt at a given second.
    pub fn defer_attempt_at(
        &mut self,
        now: u64,
        id: Id,
        attempt: Id,
        state: UploadState,
        delay: u64,
    ) -> (result: Result<(), JournalError>)
        ensures
            stepped(
                attempt_deferred(old(self)@, now, id, attempt, state, delay),
                result,
                old(self)@,
                final(self)@,
            ),
    {
        if state != UploadState::VerifyRequired && state != UploadState::Conflict && state
            != UploadState::Failed {
            return Err(JournalError::Stale);
        }
        let mut record = self.active_attempt(id, attempt)?;
        record.state = state;
        record.attempt = None;
        record.retry_at = retry_second(now, delay);
        record.failed_attempts = count_one(record.failed_attempts);
        self.save_upload(record)
    }

    /// Ends an attempt; the upload is not tried again before the delay, in seconds,
    /// has passed.
    pub fn defer_attempt(&mut self, id: Id, attempt: Id, state: UploadState, delay: u64) -> (result:
        Result<(), JournalError>)
        ensures
            exists|now: u64|
                stepped(
                    #[trigger] attempt_deferred(old(self)@, now, id, attempt, state, delay),
                    result,
                    old(self)@,
                    final(self)@,
                ),
    {
        self.defer_attempt_at(now_seconds(), id, attempt, state, delay)
    }

    /// Ends an attempt. Verification is required after an ambiguous result;
    /// conflict and failure retain the bytes and never turn into success.
    pub fn stop_attempt(&mut self, id: Id, attempt: Id, state: UploadState) -> (result: Result<
        (),
        JournalError,
    >)
        ensures
            exists|now: u64|
                stepped(
                    #[trigger] attempt_deferred(old(self)@, now, id, attempt, state, 0),
                    result,
                    old(self)@,
                    final(self)@,
                ),
    {
        self.defer_attempt(id, attempt, state, 0)
    }

    /// Makes an upload pending again. The provider worker must have proved that the
    /// old attempt did not commit; `payload` is the verdict on the stored bytes.
    pub fn retry_verified_uncommitted(&mut self, id: Id, payload: Result<(), JournalError>) -> (result:
        Result<(), JournalError>)
        ensures
            stepped(retried(old(self)@, id, payload), result, old(self)@, final(self)@),
    {
        let mut record = self.get(id)?;
        if record.state != UploadState::VerifyRequired && record.state != UploadState::Failed {
            return Err(JournalError::Stale);
        }
        payload?;
        record.state = UploadState::Pending;
        record.attempt = None;
        record.retry_at = 0;
        record.session_key = None;
        record.transferred_bytes = 0;
        self.save_upload(record)
    }

    /// Requests verification of an upload that failed or is uncertain.
    pub fn request_retry(&mut self, id: Id) -> (result: Result<(), JournalError>)
        ensures
            stepped(retry_requested(old(self)@, id), result, old(self)@, final(self)@),
    {
        let mut record = self.get(id)?;
        if let Some(base) = record.base {
            if !base.resolved {
                return Err(JournalError::Stale);
            }
        }
        if record.state != UploadState::Failed && record.state != UploadState::VerifyRequired {
            return Err(JournalError::Stale);
        }
        record.state = UploadState::VerifyRequired;
        record.retry_at = 0;
        self.save_upload(record)
    }

    /// Reserves an uncertain upload for reconciliation under a given attempt.
    pub fn claim_verification_as(&mut self, attempt: Id, id: Id) -> (result: Result<
        UploadRecord,
        JournalError,
    >)
        ensures
            answered(verification_claimed(old(self)@, attempt, id), result, old(self)@, final(self)@),
    {
        let mut record = self.get(id)?;
        let unbound = match record.base {
            Some(base) => !base.resolved,
            None => false,
        };
        if record.state != UploadState::VerifyRequired || unbound || !self.prerequisites_satisfied(id)
            || !self.is_replacement_ready(id) || !self.is_destination_ready(id) {
            return Err(JournalError::Stale);
        }
        record.state = UploadState::Verifying;
        record.attempt = Some(attempt);
        self.save_upload(record.clone())?;
        Ok(record)
    }

    /// Reserves an uncertain upload for read-only reconciliation. This authorizes no
    /// further upload.
    pub fn claim_verification(&mut self, id: Id) -> (result: Result<UploadRecord, JournalError>)
        ensures
            exists|attempt: Id|
                answered(
                    #[trigger] verification_claimed(old(self)@, attempt, id),
                    result,
                    old(self)@,
                    final(self)@,
                ),
    {
        self.claim_verification_as(fresh_id(), id)
    }

    /// Reserves the next uncertain upload at a given second.
    pub fn claim_next_verification_at(&mut self, now: u64, attempt: Id) -> (result: Result<
        Option<UploadRecord>,
        JournalError,
    >)
        ensures
            next_verified(old(self)@, now, attempt, result, final(self)@),
    {
        match self.next_upload_at(now, UploadState::VerifyRequired) {
            Some(id) => {
                let ghost before = self@;
                let record = self.claim_verification_as(attempt, id)?;
                proof {
                    assert(next_upload(before, now, UploadState::VerifyRequired, id));
                }
                Ok(Some(record))
            },
            None => Ok(None),
        }
    }

    /// Reserves the next uncertain upload for read-only reconciliation.
    pub fn claim_next_verification(&mut self) -> (result: Result<Option<UploadRecord>, JournalError>)
        ensures
            exists|now: u64, attempt: Id| #[trigger]
                next_verified(old(self)@, now, attempt, result, final(self)@),
    {
        let now = now_seconds();
        let attempt = fresh_id();
        self.claim_next_verification_at(now, attempt)
    }

    /// Completes an upload with the provider's receipt. An uncertain receipt after a
    /// restart needs a new verification attempt.
    pub fn acknowledge(&mut self, id: Id, attempt: Id, remote: Node) -> (result: Result<
        (),
        JournalError,
    >)
        ensures
            stepped(
                upload_acknowledged(old(self)@, id, attempt, remote),
                result,
                old(self)@,
                final(self)@,
            ),
    {
        let mut record = self.active_attempt(id, attempt)?;
        let identity = match &record.intent {
            UploadIntent::Create { parent, name } => remote.name == *name && optional_is(
                &remote.parent_id,
                parent.as_str(),
            ),
            UploadIntent::Replace { item, .. } => remote.id == *item,
        };
        if !identity || remote.id.as_str().is_empty() || remote.kind != NodeKind::File
            || remote.target.is_some() || remote.size != record.size
            || !remote.has_content_revision() {
            return Err(JournalError::Corrupt);
        }
        record.remote = Some(remote);
        record.state = UploadState::Uploaded;
        record.transferred_bytes = record.size;
        record.attempt = None;
        self.save_upload(record)
    }

    /// The upload whose payload is to be read. A payload that is still being
    /// prepared cannot be.
    pub fn payload_of(&self, id: Id) -> (result: Result<UploadRecord, JournalError>)
        ensures
            match result {
                Ok(record) => self@.uploads.contains_key(id) && record == self@.uploads[id]
                    && !payload_refusal(record),
                Err(error) => if self@.uploads.contains_key(id) {
                    error == JournalError::Stale && payload_refusal(self@.uploads[id])
                } else {
                    error == JournalError::Missing
                },
            },
    {
        let record = self.get(id)?;
        if record.state == UploadState::Preparing || record.sha256.as_str().as_bytes().len() != 64 {
            return Err(JournalError::Stale);
        }
        Ok(record)
    }

    /// Whether a payload may be removed: only an acknowledged one.
    pub fn may_prune(&self, id: Id) -> (result: Result<(), JournalError>)
        ensures
            match result {
                Ok(()) => self@.uploads.contains_key(id) && self@.uploads[id].state
                    == UploadState::Uploaded,
                Err(error) => if self@.uploads.contains_key(id) {
                    error == JournalError::Stale && self@.uploads[id].state
                        != UploadState::Uploaded
                } else {
                    error == JournalError::Missing
                },
            },
    {
        if self.get(id)?.state != UploadState::Uploaded {
            return Err(JournalError::Stale);
        }
        Ok(())
    }
}

/// Whether stored bytes are the payload of an upload.
pub fn check_payload(record: &UploadRecord, found: &Sealed) -> (result: Result<(), JournalError>)
    ensures
        match result {
            Ok(()) => found.size == record.size && found.sha256@ == record.sha256@,
            Err(error) => error == JournalError::Corrupt && (found.size != record.size
                || found.sha256@ != record.sha256@),
        },
{
    if found.size != record.size || found.sha256 != record.sha256 {
        return Err(JournalError::Corrupt);
    }
    Ok(())
}

/// Only one upload is the next one.
proof fn lemma_one_next(journal: JournalView, now: u64, state: UploadState, a: Id, b: Id)
    requires
        next_upload(journal, now, state, a),
    ensures
        next_upload(journal, now, state, b) ==> a == b,
{
}

} // verus!
