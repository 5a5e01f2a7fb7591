//! What attempts promise: what may be claimed, and what every answer of the provider
//! makes of an operation and of the object that it acted on.
use crate::journal::generations::waiting;
use crate::journal::laws::{
    a_mutation_is_stored_as_given, an_upload_is_stored_as_given, flags_agree,
};
use crate::journal::listing::earliest;
use crate::journal::mutations::{
    mutation_acknowledged, mutation_claimable, mutation_claimed, mutation_deferred,
    mutation_retried, mutation_retry_requested, mutation_taken, next_mutation, reconciled,
    removal_discarded,
};
use crate::journal::receipts::{confirmed, mutation_saved, replaced};
use crate::journal::records::{
    JournalError, JournalView, MutationRecord, MutationState, UploadRecord, UploadState, WriteBase,
};
use crate::journal::tables::{contend, ResourceView};
use crate::journal::uploads::{
    attempt_deferred, attempts_recovered, claimable, claimed_next, eligible, next_upload, retried,
    retry_requested, session_recorded, upload_acknowledged, verification_claimed,
};
use crate::model::{Id, MutationIntent, MutationReceipt, Node, NodeKind, UploadIntent};
use crate::text::optional_view;
use vstd::prelude::*;

verus! {

/// A receipt of a file's rename that was looked up later shows another content: another
/// length, or another tag together with another version, or no version to tell.
pub open spec fn shows_other_content(before: Node, after: Node) -> bool {
    ||| before.size != after.size
    ||| optional_view(before.etag) != optional_view(after.etag) && !(before.content_version is Some
        && after.content_version is Some && before.content_version->0@.len() > 0
        && before.content_version->0@ == after.content_version->0@)
}

/// An accepted receipt of a change that was just sent makes it applied, whatever the kind
/// of change. A change comes to a conflict or a review only where it is the rename of a
/// file that was looked up later and shows another content.
pub proof fn accepted_changes_are_applied(record: MutationRecord, receipt: MutationReceipt)
    ensures
        record.state == MutationState::Applying ==> reconciled(record, receipt)
            == MutationState::Applied,
        !(record.request.intent is Relocate) ==> reconciled(record, receipt)
            == MutationState::Applied,
        receipt is Removed ==> reconciled(record, receipt) == MutationState::Applied,
        reconciled(record, receipt) != MutationState::Applied <==> {
            &&& record.state == MutationState::Verifying
            &&& record.request.intent matches MutationIntent::Relocate { before, .. }
            &&& before.kind == NodeKind::File
            &&& receipt matches MutationReceipt::Upsert(after)
            &&& shows_other_content(before, after)
        },
        reconciled(record, receipt) == MutationState::Applied || reconciled(record, receipt)
            == MutationState::Conflict || reconciled(record, receipt) == MutationState::NeedsReview,
        // A length or a version that is known to differ is a conflict.
        reconciled(record, receipt) == MutationState::NeedsReview ==> {
            let before = record.request.intent->Relocate_before;
            let after = receipt->Upsert_0;
            &&& before.size == after.size
            &&& before.content_version is None || after.content_version is None
                || before.content_version->0@.len() == 0 || after.content_version->0@.len() == 0
        },
{
}

/// A receipt ends the attempt and stays with the change. Acknowledging what was just sent
/// always gives the applied state, and completes the place in the queue.
pub proof fn receipts_end_changes(
    journal: JournalView,
    id: Id,
    attempt: Id,
    receipt: MutationReceipt,
    accepted: bool,
)
    requires
        flags_agree(journal),
    ensures
        match mutation_acknowledged(journal, id, attempt, receipt, accepted) {
            Ok((after, state)) => {
                let before = journal.mutations[id];
                &&& accepted
                &&& journal.mutations.contains_key(id) && before.attempt == Some(attempt)
                &&& before.state == MutationState::Applying || before.state
                    == MutationState::Verifying
                &&& before.state == MutationState::Applying ==> state == MutationState::Applied
                &&& after.mutations == journal.mutations.insert(
                    id,
                    MutationRecord { state, receipt: Some(receipt), attempt: None, ..before },
                )
                &&& after.uploads == journal.uploads
                &&& after.queue[id].complete == (state == MutationState::Applied)
                &&& after.queue[id].sequence == journal.queue[id].sequence
                &&& forall|other: Id| #[trigger]
                    journal.queue.contains_key(other) && other != id ==> after.queue.contains_key(
                        other,
                    ) && after.queue[other] == journal.queue[other]
            },
            Err(error) => {
                ||| error == JournalError::Missing && !journal.mutations.contains_key(id)
                ||| error == JournalError::Stale && !(journal.mutations[id].attempt == Some(attempt)
                    && (journal.mutations[id].state == MutationState::Applying
                    || journal.mutations[id].state == MutationState::Verifying))
                ||| error == JournalError::Corrupt && !accepted
                // The object that the change acted on refuses the receipt.
                ||| journal.operations.contains_key(id) && receipt is Upsert
            },
        },
{
    let record = journal.mutations[id];
    a_mutation_is_stored_as_given(
        journal,
        MutationRecord {
            state: reconciled(record, receipt),
            receipt: Some(receipt),
            attempt: None,
            ..record
        },
    );
}

/// The provider's node is what the upload was to leave there: a plain file of its length,
/// with something that fixes its content, under the name that was asked for or as the
/// item that was to be replaced.
pub open spec fn answers_upload(record: UploadRecord, node: Node) -> bool {
    &&& match record.intent {
        UploadIntent::Create { parent, name } => node.name@ == name@ && node.parent_id is Some
            && node.parent_id->0@ == parent@,
        UploadIntent::Replace { item, .. } => node.id@ == item@,
    }
    &&& node.id@.len() > 0
    &&& node.kind == NodeKind::File
    &&& node.target is None
    &&& node.size == record.size
    &&& (node.content_version is Some && node.content_version->0@.len() > 0) || (node.etag is Some
        && node.etag->0@.len() > 0)
}

/// A receipt completes exactly the upload that it answers: the upload is done, all its
/// bytes are there, and the receipt stays with it. A receipt that does not answer it is
/// refused.
pub proof fn receipts_complete_uploads(journal: JournalView, id: Id, attempt: Id, node: Node)
    requires
        flags_agree(journal),
    ensures
        match upload_acknowledged(journal, id, attempt, node) {
            Ok(after) => {
                let before = journal.uploads[id];
                &&& journal.uploads.contains_key(id) && before.attempt == Some(attempt)
                &&& before.state == UploadState::Uploading || before.state == UploadState::Verifying
                &&& answers_upload(before, node)
                &&& after.uploads == journal.uploads.insert(
                    id,
                    UploadRecord {
                        state: UploadState::Uploaded,
                        remote: Some(node),
                        transferred_bytes: before.size,
                        attempt: None,
                        ..before
                    },
                )
                &&& after.mutations == journal.mutations
                &&& after.queue[id].complete
                &&& after.queue[id].sequence == journal.queue[id].sequence
                &&& forall|other: Id| #[trigger]
                    journal.queue.contains_key(other) && other != id ==> after.queue.contains_key(
                        other,
                    ) && after.queue[other] == journal.queue[other]
            },
            Err(error) => {
                ||| error == JournalError::Missing && !journal.uploads.contains_key(id)
                ||| error == JournalError::Stale && !(journal.uploads[id].attempt == Some(attempt)
                    && (journal.uploads[id].state == UploadState::Uploading
                    || journal.uploads[id].state == UploadState::Verifying))
                ||| error == JournalError::Corrupt && !answers_upload(journal.uploads[id], node)
                // The objects that the upload acted on refuse the receipt.
                ||| journal.operations.contains_key(id) || journal.replacements.contains_key(id)
            },
        },
{
    let record = journal.uploads[id];
    an_upload_is_stored_as_given(
        journal,
        UploadRecord {
            remote: Some(node),
            state: UploadState::Uploaded,
            transferred_bytes: record.size,
            attempt: None,
            ..record
        },
    );
}

/// A receipt reaches the object that the operation acted on: the object knows the
/// provider's node from then on, and keeps its own identity, name and place. An older
/// receipt than the one it knows changes nothing, and no other object changes.
pub proof fn receipts_reach_the_object(
    journal: JournalView,
    operation: Id,
    sequence: u64,
    node: Node,
)
    requires
        journal.operations.contains_key(operation) && journal.objects.contains_key(
            journal.operations[operation],
        ) ==> journal.objects[journal.operations[operation]].id == journal.operations[operation],
    ensures
        !journal.operations.contains_key(operation) ==> confirmed(journal, operation, sequence, node)
            == Ok::<JournalView, JournalError>(journal),
        match confirmed(journal, operation, sequence, node) {
            Ok(after) => journal.operations.contains_key(operation) ==> {
                let id = journal.operations[operation];
                let before = journal.objects[id];
                let now = after.objects[id];
                &&& journal.objects.contains_key(id)
                &&& before.remote_sequence >= sequence ==> after == journal
                &&& before.remote_sequence < sequence ==> {
                    &&& after.objects == journal.objects.insert(id, now)
                    &&& now.remote == Some(node)
                    &&& now.remote_sequence == sequence
                    &&& now.revision == before.revision + 1
                    &&& now.node.id == before.node.id && now.node.name == before.node.name
                        && now.node.parent_id == before.node.parent_id && now.node.kind
                        == before.node.kind
                    &&& before.working_file is Some ==> now.node == before.node
                    &&& before.working_file is None ==> now.node.etag == node.etag
                        && now.node.content_version == node.content_version && now.node.size
                        == node.size && now.node.modified_unix == node.modified_unix
                    &&& now.latest == before.latest && now.working_file == before.working_file
                        && now.unlinked == before.unlinked && now.follows_remote
                        == before.follows_remote && now.remote_owned == before.remote_owned
                    &&& before.remote is Some ==> before.remote->0.id@ == node.id@
                    &&& node.kind == before.node.kind && node.target is None
                }
            },
            Err(_) => true,
        },
{
}

/// The takeover of a name moves the three provider identities at once: the published file
/// has the victim's item, the victim has none any more, and the cleanup has the item that
/// the source came from.
pub proof fn takeovers_move_three_identities(
    journal: JournalView,
    operation: Id,
    sequence: u64,
    node: Node,
)
    requires
        journal.replacements.contains_key(operation),
        !journal.replacements[operation].remote_applied,
        journal.replacements[operation].id == operation,
        ({
            let record = journal.replacements[operation];
            &&& journal.objects.contains_key(record.source) ==> journal.objects[record.source].id
                == record.source
            &&& journal.objects.contains_key(record.victim) ==> journal.objects[record.victim].id
                == record.victim
            &&& journal.objects.contains_key(record.cleanup_object)
                ==> journal.objects[record.cleanup_object].id == record.cleanup_object
            &&& record.source != record.victim && record.source != record.cleanup_object
                && record.victim != record.cleanup_object
        }),
    ensures
        match replaced(journal, operation, sequence, node) {
            Ok(Some(after)) => {
                let record = journal.replacements[operation];
                let source = journal.objects[record.source];
                &&& record.local_ready
                &&& after.replacements[operation].remote_applied
                &&& after.objects[record.source].remote == Some(node)
                &&& after.objects[record.source].remote_sequence == sequence
                &&& after.objects[record.source].remote_owned == source.remote_owned
                &&& after.objects[record.source].node == source.node
                &&& !after.objects[record.victim].remote_owned
                &&& after.objects[record.victim].remote == journal.objects[record.victim].remote
                &&& journal.objects[record.victim].remote->0.id@ == node.id@
                &&& after.objects[record.cleanup_object].remote == source.remote
                &&& after.objects[record.cleanup_object].remote_owned
                &&& after.objects[record.cleanup_object].node.id
                    == journal.objects[record.cleanup_object].node.id
                &&& after.uploads == journal.uploads && after.mutations == journal.mutations
                &&& after.working == journal.working
                &&& forall|id: Id| #[trigger]
                    journal.objects.contains_key(id) && id != record.source && id != record.victim
                        && id != record.cleanup_object ==> after.objects.contains_key(id)
                        && after.objects[id] == journal.objects[id]
            },
            Ok(None) => false,
            Err(_) => true,
        },
{
}

/// Nothing holds an operation back: its own source is bound, all it waits for is complete,
/// its destination is known, its time has come, and nothing earlier that is unfinished
/// touches what it touches.
pub open spec fn free_to_go(
    journal: JournalView,
    now: u64,
    id: Id,
    sequence: u64,
    base: Option<WriteBase>,
    retry_at: u64,
) -> bool {
    &&& base is Some ==> base->0.resolved
    &&& retry_at <= now
    &&& journal.destinations.contains_key(id) ==> journal.destinations[id].resolved
    &&& forall|before: Id| #[trigger]
        journal.prerequisites.contains((id, before)) ==> journal.queue.contains_key(before)
            && journal.queue[before].complete
    &&& forall|other: Id, key: ResourceView|
        #![trigger journal.queue.contains_key(other), journal.resources.contains((other, key))]
        journal.queue.contains_key(other) && journal.resources.contains((other, key))
            && journal.resources.contains((id, key)) && other != id && journal.queue[other].sequence
            < sequence ==> journal.queue[other].complete
}

/// An upload may be claimed exactly while it is in the state that is asked for, its readers
/// are safe and nothing holds it back, and a change while it is pending or uncertain.
pub proof fn free_operations_may_be_claimed(
    journal: JournalView,
    now: u64,
    id: Id,
    state: UploadState,
    upload: UploadRecord,
    change: MutationRecord,
)
    requires
        journal.queue.contains_key(id) ==> journal.queue[id].sequence == upload.sequence
            && journal.queue[id].sequence == change.sequence,
    ensures
        claimable(journal, now, state, id, upload) <==> {
            &&& upload.state == state
            &&& journal.replacements.contains_key(id) ==> journal.replacements[id].local_ready
            &&& free_to_go(journal, now, id, upload.sequence, upload.base, upload.retry_at)
        },
        mutation_claimable(journal, now, id, change) <==> {
            &&& change.state == MutationState::Pending || change.state
                == MutationState::VerifyRequired
            &&& change.local_ready
            &&& free_to_go(journal, now, id, change.sequence, change.base, change.retry_at)
        },
{
    lemma_free(journal, now, id, upload.sequence, upload.base, upload.retry_at);
    lemma_free(journal, now, id, change.sequence, change.base, change.retry_at);
}

proof fn lemma_free(
    journal: JournalView,
    now: u64,
    id: Id,
    sequence: u64,
    base: Option<WriteBase>,
    retry_at: u64,
)
    requires
        journal.queue.contains_key(id) ==> journal.queue[id].sequence == sequence,
    ensures
        eligible(journal, now, id, sequence, base, retry_at) <==> free_to_go(
            journal,
            now,
            id,
            sequence,
            base,
            retry_at,
        ),
{
    if free_to_go(journal, now, id, sequence, base, retry_at) {
        assert forall|other: Id| #[trigger]
            journal.queue.contains_key(other) && journal.queue[other].sequence < sequence
                && !journal.queue[other].complete implies !contend(
            journal.resources,
            other,
            id,
        ) by {
            if contend(journal.resources, other, id) {
                let key = choose|key: ResourceView| #[trigger]
                    journal.resources.contains((other, key)) && journal.resources.contains(
                        (id, key),
                    );
                assert(journal.resources.contains((other, key)));
            }
        }
    }
}

/// The earliest upload that may be claimed is the next one, unless a receipt has come that
/// an edit still has to be bound to; and only it is.
pub proof fn the_earliest_goes_first(journal: JournalView, now: u64, state: UploadState, id: Id)
    ensures
        next_upload(journal, now, state, id) ==> {
            &&& !waiting(journal)
            &&& journal.uploads.contains_key(id)
            &&& claimable(journal, now, state, id, journal.uploads[id])
            &&& forall|other: Id| #[trigger]
                journal.uploads.contains_key(other) && claimable(
                    journal,
                    now,
                    state,
                    other,
                    journal.uploads[other],
                ) ==> journal.uploads[id].sequence <= journal.uploads[other].sequence
        },
        (!waiting(journal) && journal.uploads.contains_key(id) && claimable(
            journal,
            now,
            state,
            id,
            journal.uploads[id],
        ) && forall|other: Id| #[trigger]
            journal.uploads.contains_key(other) && other != id && claimable(
                journal,
                now,
                state,
                other,
                journal.uploads[other],
            ) ==> journal.uploads[id].sequence < journal.uploads[other].sequence) ==> next_upload(
            journal,
            now,
            state,
            id,
        ),
        next_mutation(journal, now, id) ==> {
            &&& !waiting(journal)
            &&& journal.mutations.contains_key(id)
            &&& mutation_claimable(journal, now, id, journal.mutations[id])
            &&& forall|other: Id| #[trigger]
                journal.mutations.contains_key(other) && mutation_claimable(
                    journal,
                    now,
                    other,
                    journal.mutations[other],
                ) ==> journal.mutations[id].sequence <= journal.mutations[other].sequence
        },
        (!waiting(journal) && journal.mutations.contains_key(id) && mutation_claimable(
            journal,
            now,
            id,
            journal.mutations[id],
        ) && forall|other: Id| #[trigger]
            journal.mutations.contains_key(other) && other != id && mutation_claimable(
                journal,
                now,
                other,
                journal.mutations[other],
            ) ==> journal.mutations[id].sequence < journal.mutations[other].sequence)
            ==> next_mutation(journal, now, id),
{
}

/// Edits wait to be bound exactly while a pending one has an unbound source whose place is
/// complete; nothing is claimed before they are.
pub proof fn bindings_come_first(journal: JournalView)
    ensures
        waiting(journal) <==> {
            ||| exists|id: Id| #[trigger]
                journal.uploads.contains_key(id) && (journal.uploads[id].state
                    == UploadState::Pending || journal.uploads[id].state == UploadState::Preparing)
                    && journal.uploads[id].base is Some && !journal.uploads[id].base->0.resolved
                    && journal.queue.contains_key(journal.uploads[id].base->0.predecessor)
                    && journal.queue[journal.uploads[id].base->0.predecessor].complete
            ||| exists|id: Id| #[trigger]
                journal.mutations.contains_key(id) && journal.mutations[id].state
                    == MutationState::Pending && journal.mutations[id].base is Some
                    && !journal.mutations[id].base->0.resolved && journal.queue.contains_key(
                    journal.mutations[id].base->0.predecessor,
                ) && journal.queue[journal.mutations[id].base->0.predecessor].complete
        },
{
    if waiting(journal) {
        if exists|id: Id| #[trigger]
            journal.uploads.contains_key(id) && crate::journal::generations::upload_ready(
                journal,
                journal.uploads[id],
            ) {
            let id = choose|id: Id| #[trigger]
                journal.uploads.contains_key(id) && crate::journal::generations::upload_ready(
                    journal,
                    journal.uploads[id],
                );
            assert(journal.uploads.contains_key(id));
        } else {
            let id = choose|id: Id| #[trigger]
                journal.mutations.contains_key(id) && crate::journal::generations::mutation_ready(
                    journal,
                    journal.mutations[id],
                );
            assert(journal.mutations.contains_key(id));
        }
    }
}

/// Claiming the next upload hands out exactly that upload, as sending and under the given
/// attempt, and stores it so. A payload that cannot be read fails its upload instead. What
/// is not the next upload is not handed out.
pub proof fn claims_hand_out_the_next_upload(
    journal: JournalView,
    now: u64,
    attempt: Id,
    id: Id,
    payload: Result<(), JournalError>,
    result: Result<Option<UploadRecord>, JournalError>,
    after: JournalView,
)
    requires
        flags_agree(journal),
        claimed_next(journal, now, attempt, id, payload, result, after),
    ensures
        !next_upload(journal, now, UploadState::Pending, id) ==> result is Ok && result->Ok_0
            is None && after == journal,
        next_upload(journal, now, UploadState::Pending, id) && payload is Ok ==> {
            let handed = UploadRecord {
                state: UploadState::Uploading,
                attempt: Some(attempt),
                ..journal.uploads[id]
            };
            &&& result == Ok::<Option<UploadRecord>, JournalError>(Some(handed))
            &&& after.uploads == journal.uploads.insert(id, handed)
            &&& after.mutations == journal.mutations
            &&& after.objects == journal.objects
        },
        next_upload(journal, now, UploadState::Pending, id) && payload is Err ==> {
            &&& result == Err::<Option<UploadRecord>, JournalError>(payload->Err_0)
            &&& after.uploads == journal.uploads.insert(
                id,
                UploadRecord { state: UploadState::Failed, ..journal.uploads[id] },
            )
            &&& after.mutations == journal.mutations
            &&& after.objects == journal.objects
        },
{
    let record = journal.uploads[id];
    an_upload_is_stored_as_given(
        journal,
        UploadRecord { state: UploadState::Uploading, attempt: Some(attempt), ..record },
    );
    an_upload_is_stored_as_given(journal, UploadRecord { state: UploadState::Failed, ..record });
}

/// Claiming the next change hands out exactly that change: a pending one to be sent, an
/// uncertain one to be looked up only.
pub proof fn claims_hand_out_the_next_change(
    journal: JournalView,
    now: u64,
    attempt: Id,
    result: Result<Option<MutationRecord>, JournalError>,
    after: JournalView,
)
    requires
        flags_agree(journal),
        mutation_claimed(journal, now, attempt, result, after),
    ensures
        result is Ok,
        result->Ok_0 is None ==> after == journal && forall|id: Id| !next_mutation(journal, now, id),
        result->Ok_0 is Some ==> {
            let handed = result->Ok_0->0;
            let before = journal.mutations[handed.id];
            &&& next_mutation(journal, now, handed.id)
            &&& handed.attempt == Some(attempt)
            &&& handed.state == MutationState::Applying <==> before.state == MutationState::Pending
            &&& handed.state == MutationState::Verifying <==> before.state
                == MutationState::VerifyRequired
            &&& handed == (MutationRecord { state: handed.state, attempt: handed.attempt, ..before })
            &&& after.mutations == journal.mutations.insert(handed.id, handed)
            &&& after.uploads == journal.uploads
            &&& after.objects == journal.objects
        },
{
    if exists|id: Id| next_mutation(journal, now, id) {
        let id = choose|id: Id| #[trigger]
            next_mutation(journal, now, id) && match (
                mutation_saved(journal, mutation_taken(journal.mutations[id], attempt)),
                result,
            ) {
                (Ok(state), Ok(Some(found))) => found == mutation_taken(
                    journal.mutations[id],
                    attempt,
                ) && after == state,
                (Err(wanted), Err(error)) => wanted == error && after == journal,
                _ => false,
            };
        a_mutation_is_stored_as_given(journal, mutation_taken(journal.mutations[id], attempt));
    }
}

/// An upload is held by an attempt while it is sent or looked up under that attempt.
pub open spec fn holds_upload(journal: JournalView, id: Id, attempt: Id) -> bool {
    &&& journal.uploads.contains_key(id)
    &&& journal.uploads[id].attempt == Some(attempt)
    &&& journal.uploads[id].state == UploadState::Uploading || journal.uploads[id].state
        == UploadState::Verifying
}

/// A change is held by an attempt while it is sent or looked up under that attempt.
pub open spec fn holds_change(journal: JournalView, id: Id, attempt: Id) -> bool {
    &&& journal.mutations.contains_key(id)
    &&& journal.mutations[id].attempt == Some(attempt)
    &&& journal.mutations[id].state == MutationState::Applying || journal.mutations[id].state
        == MutationState::Verifying
}

/// One upload was stored anew, unfinished as it was, and nothing else changed.
pub open spec fn upload_became(journal: JournalView, after: JournalView, id: Id, now: UploadRecord) -> bool {
    &&& after.uploads == journal.uploads.insert(id, now)
    &&& !after.queue[id].complete
    &&& after.queue[id].sequence == journal.queue[id].sequence
    &&& after == (JournalView { uploads: after.uploads, queue: after.queue, ..journal })
}

/// One change was stored anew, unfinished as it was, and nothing else changed.
pub open spec fn change_became(
    journal: JournalView,
    after: JournalView,
    id: Id,
    now: MutationRecord,
) -> bool {
    &&& after.mutations == journal.mutations.insert(id, now)
    &&& !after.queue[id].complete
    &&& after.queue[id].sequence == journal.queue[id].sequence
    &&& after == (JournalView { mutations: after.mutations, queue: after.queue, ..journal })
}

/// An attempt that holds an upload may write down how far it is, never farther than the
/// payload goes. It may put the upload away, which is then one failure more, holds no
/// attempt, keeps its bytes and its session, and is not tried before its time. Nobody else
/// may do either.
pub proof fn attempts_report_on_their_upload(
    journal: JournalView,
    now: u64,
    id: Id,
    attempt: Id,
    key: Id,
    transferred: u64,
    state: UploadState,
    delay: u64,
)
    requires
        flags_agree(journal),
    ensures
        session_recorded(journal, id, attempt, key, transferred) is Ok <==> holds_upload(
            journal,
            id,
            attempt,
        ) && transferred <= journal.uploads[id].size,
        session_recorded(journal, id, attempt, key, transferred) matches Ok(after)
            ==> upload_became(
            journal,
            after,
            id,
            UploadRecord {
                session_key: Some(key),
                transferred_bytes: transferred,
                state: UploadState::Uploading,
                ..journal.uploads[id]
            },
        ),
        attempt_deferred(journal, now, id, attempt, state, delay) is Ok <==> holds_upload(
            journal,
            id,
            attempt,
        ) && (state == UploadState::VerifyRequired || state == UploadState::Conflict || state
            == UploadState::Failed),
        attempt_deferred(journal, now, id, attempt, state, delay) matches Ok(after) ==> {
            let put = after.uploads[id];
            let before = journal.uploads[id];
            &&& upload_became(
                journal,
                after,
                id,
                UploadRecord {
                    state,
                    attempt: None,
                    retry_at: put.retry_at,
                    failed_attempts: put.failed_attempts,
                    ..before
                },
            )
            &&& before.failed_attempts < u32::MAX ==> put.failed_attempts == before.failed_attempts
                + 1
            &&& now + delay <= 0x7fff_ffff_ffff_ffff ==> put.retry_at == now + delay
            &&& now + delay > 0x7fff_ffff_ffff_ffff ==> put.retry_at == 0x7fff_ffff_ffff_ffff
        },
{
}

/// The same of changes: an attempt that holds one may put it away, or give it back to the
/// queue where a look-up has shown that the provider never took it.
pub proof fn attempts_report_on_their_change(
    journal: JournalView,
    now: u64,
    id: Id,
    attempt: Id,
    state: MutationState,
    delay: u64,
)
    requires
        flags_agree(journal),
    ensures
        mutation_deferred(journal, now, id, attempt, state, delay) is Ok <==> holds_change(
            journal,
            id,
            attempt,
        ) && (state == MutationState::VerifyRequired || state == MutationState::Conflict || state
            == MutationState::Failed || state == MutationState::NeedsReview),
        mutation_deferred(journal, now, id, attempt, state, delay) matches Ok(after) ==> {
            let put = after.mutations[id];
            let before = journal.mutations[id];
            &&& change_became(
                journal,
                after,
                id,
                MutationRecord {
                    state,
                    attempt: None,
                    retry_at: put.retry_at,
                    failed_attempts: put.failed_attempts,
                    ..before
                },
            )
            &&& before.failed_attempts < u32::MAX ==> put.failed_attempts == before.failed_attempts
                + 1
            &&& now + delay <= 0x7fff_ffff_ffff_ffff ==> put.retry_at == now + delay
            &&& now + delay > 0x7fff_ffff_ffff_ffff ==> put.retry_at == 0x7fff_ffff_ffff_ffff
        },
        mutation_retried(journal, id, attempt) is Ok <==> holds_change(journal, id, attempt)
            && journal.mutations[id].state == MutationState::Verifying,
        mutation_retried(journal, id, attempt) matches Ok(after) ==> change_became(
            journal,
            after,
            id,
            MutationRecord {
                state: MutationState::Pending,
                attempt: None,
                retry_at: 0,
                ..journal.mutations[id]
            },
        ),
{
}

/// A person's retry asks for verification, never for a replay; only what failed or is
/// uncertain can be retried, and of changes also what waits for a review. An upload that
/// was proved not to have arrived starts over with its intact bytes.
pub proof fn retries_never_replay(
    journal: JournalView,
    id: Id,
    payload: Result<(), JournalError>,
)
    requires
        flags_agree(journal),
    ensures
        retry_requested(journal, id) is Ok <==> {
            &&& journal.uploads.contains_key(id)
            &&& journal.uploads[id].base is Some ==> journal.uploads[id].base->0.resolved
            &&& journal.uploads[id].state == UploadState::Failed || journal.uploads[id].state
                == UploadState::VerifyRequired
        },
        retry_requested(journal, id) matches Ok(after) ==> upload_became(
            journal,
            after,
            id,
            UploadRecord {
                state: UploadState::VerifyRequired,
                retry_at: 0,
                ..journal.uploads[id]
            },
        ),
        mutation_retry_requested(journal, id) is Ok <==> {
            &&& journal.mutations.contains_key(id)
            &&& journal.mutations[id].base is Some ==> journal.mutations[id].base->0.resolved
            &&& journal.mutations[id].state == MutationState::Failed || journal.mutations[id].state
                == MutationState::VerifyRequired || journal.mutations[id].state
                == MutationState::NeedsReview
        },
        mutation_retry_requested(journal, id) matches Ok(after) ==> change_became(
            journal,
            after,
            id,
            MutationRecord {
                state: MutationState::VerifyRequired,
                retry_at: 0,
                ..journal.mutations[id]
            },
        ),
        retried(journal, id, payload) is Ok <==> {
            &&& journal.uploads.contains_key(id)
            &&& payload is Ok
            &&& journal.uploads[id].state == UploadState::Failed || journal.uploads[id].state
                == UploadState::VerifyRequired
        },
        retried(journal, id, payload) matches Ok(after) ==> upload_became(
            journal,
            after,
            id,
            UploadRecord {
                state: UploadState::Pending,
                attempt: None,
                retry_at: 0,
                session_key: None,
                transferred_bytes: 0,
                ..journal.uploads[id]
            },
        ),
{
}

/// An uncertain upload is reserved for a look-up under a new attempt once what it depends
/// on is there; everything else of it stays.
pub proof fn uncertain_uploads_are_looked_up(journal: JournalView, attempt: Id, id: Id)
    requires
        flags_agree(journal),
    ensures
        verification_claimed(journal, attempt, id) is Ok <==> {
            &&& journal.uploads.contains_key(id)
            &&& journal.uploads[id].state == UploadState::VerifyRequired
            &&& journal.uploads[id].base is Some ==> journal.uploads[id].base->0.resolved
            &&& journal.replacements.contains_key(id) ==> journal.replacements[id].local_ready
            &&& journal.destinations.contains_key(id) ==> journal.destinations[id].resolved
            &&& forall|before: Id| #[trigger]
                journal.prerequisites.contains((id, before)) ==> journal.queue.contains_key(before)
                    && journal.queue[before].complete
        },
        verification_claimed(journal, attempt, id) matches Ok((after, handed)) ==> {
            &&& handed == (UploadRecord {
                state: UploadState::Verifying,
                attempt: Some(attempt),
                ..journal.uploads[id]
            })
            &&& upload_became(journal, after, id, handed)
        },
{
}

/// After a restart nothing is held, what may have been sent is uncertain, and everything
/// else is as it was.
pub proof fn restarts_make_attempts_uncertain(journal: JournalView, id: Id)
    ensures
        attempts_recovered(journal).uploads.dom() == journal.uploads.dom(),
        attempts_recovered(journal).mutations.dom() == journal.mutations.dom(),
        attempts_recovered(journal).queue == journal.queue,
        attempts_recovered(journal).objects == journal.objects,
        attempts_recovered(journal).working == journal.working,
        journal.uploads.contains_key(id) ==> {
            let before = journal.uploads[id];
            let now = attempts_recovered(journal).uploads[id];
            &&& before.state == UploadState::Uploading || before.state == UploadState::Verifying
                ==> now == (UploadRecord {
                state: UploadState::VerifyRequired,
                attempt: None,
                ..before
            })
            &&& before.state == UploadState::Preparing ==> now == (UploadRecord {
                attempt: None,
                ..before
            })
            &&& before.state != UploadState::Uploading && before.state != UploadState::Verifying
                && before.state != UploadState::Preparing ==> now == before
        },
        journal.mutations.contains_key(id) ==> {
            let before = journal.mutations[id];
            let now = attempts_recovered(journal).mutations[id];
            &&& before.state == MutationState::Applying || before.state == MutationState::Verifying
                ==> now == (MutationRecord {
                state: MutationState::VerifyRequired,
                attempt: None,
                ..before
            })
            &&& before.state != MutationState::Applying && before.state != MutationState::Verifying
                ==> now == before
        },
{
    assert(attempts_recovered(journal).uploads.dom() =~= journal.uploads.dom());
    assert(attempts_recovered(journal).mutations.dom() =~= journal.mutations.dom());
}

/// A removal that the provider never took can be abandoned: the file has its name again,
/// and the removal is gone from the journal with everything that it claimed.
pub proof fn abandoned_removals_show_the_file_again(journal: JournalView, id: Id)
    requires
        removal_discarded(journal, id) is Ok,
        journal.operations.contains_key(id),
        journal.objects.contains_key(journal.operations[id]),
        journal.objects[journal.operations[id]].id == journal.operations[id],
    ensures
        ({
            let after = removal_discarded(journal, id)->Ok_0;
            let object = journal.operations[id];
            &&& journal.mutations[id].state == MutationState::Conflict || journal.mutations[id].state
                == MutationState::Failed || journal.mutations[id].state
                == MutationState::NeedsReview
            &&& journal.mutations[id].request.intent is RemoveFile
                || journal.mutations[id].request.intent is RemoveFolder
            &&& journal.objects[object].unlinked
            &&& !after.objects[object].unlinked
            &&& after.objects[object].latest is None
            &&& after.objects[object].node == journal.objects[object].node
            &&& after.objects[object].remote == journal.objects[object].remote
            &&& after.mutations == journal.mutations.remove(id)
            &&& after.uploads == journal.uploads
            &&& after.queue == journal.queue.remove(id)
            &&& !after.operations.contains_key(id)
            &&& forall|key: ResourceView| !after.resources.contains((id, key))
            &&& forall|other: Id, key: ResourceView|
                other != id ==> (after.resources.contains((other, key))
                    <==> journal.resources.contains((other, key)))
        }),
{
}

} // verus!
