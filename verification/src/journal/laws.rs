//! What every operation of the journal keeps.
use crate::journal::directories::directory_removed;
use crate::journal::handoff::{collectable, handed_off};
use crate::journal::mutations::{
    mutation_acknowledged, mutation_deferred, mutation_held, mutation_queued, next_mutation,
    removal_discarded,
};
use crate::journal::namespace::{consistent, save_refusal, save_step, saving_keeps_consistency};
use crate::journal::queue::{enqueued, mutation_keys, queued_before, upload_keys, waits};
use crate::journal::receipts::{
    confirmed, marked, mutation_saved, rebound, replaced, upload_saved, upserted,
};
use crate::journal::records::{
    JournalError, JournalView, MutationRecord, MutationState, NamespaceObject, ReplacementRecord,
    UploadRecord, UploadState,
};
use crate::journal::tables::contend;
use crate::journal::unlinked::file_unlinked;
use crate::journal::uploads::{
    attempt_deferred, attempts_recovered, base_bound, claimable, destination_ready, held,
    next_upload, overtakes, replacement_ready, satisfied, upload_acknowledged, upload_queued,
};
use crate::model::{Id, MutationReceipt, Node};
use vstd::prelude::*;

verus! {

/// A confirmation changes objects and what is kept about them, and nothing of the
/// queue.
pub open spec fn queue_untouched(before: JournalView, after: JournalView) -> bool {
    &&& after.uploads == before.uploads
    &&& after.mutations == before.mutations
    &&& after.queue == before.queue
    &&& after.last_sequence == before.last_sequence
    &&& after.prerequisites == before.prerequisites
    &&& after.successors == before.successors
    &&& after.resources == before.resources
    &&& after.destinations == before.destinations
}

/// A receipt touches nothing of the queue but the operation's own place.
pub proof fn receipts_leave_the_queue(
    journal: JournalView,
    operation: Id,
    sequence: u64,
    remote: Node,
)
    ensures
        match confirmed(journal, operation, sequence, remote) {
            Ok(after) => queue_untouched(journal, after),
            Err(_) => true,
        },
        match replaced(journal, operation, sequence, remote) {
            Ok(Some(after)) => queue_untouched(journal, after),
            _ => true,
        },
{
}

/// Storing an upload stores exactly that record.
pub proof fn an_upload_is_stored_as_given(journal: JournalView, record: UploadRecord)
    ensures
        match upload_saved(journal, record) {
            Ok(after) => after.uploads == journal.uploads.insert(record.id, record)
                && after.mutations == journal.mutations && after.queue == marked(
                journal,
                record.id,
                record.state == UploadState::Uploaded,
            ).queue && after.prerequisites == journal.prerequisites && after.successors
                == journal.successors && after.last_sequence == journal.last_sequence
                && after.destinations == journal.destinations,
            Err(_) => true,
        },
{
    if journal.uploads.contains_key(record.id) && journal.queue.contains_key(record.id) {
        let stored = marked(
            JournalView { uploads: journal.uploads.insert(record.id, record), ..journal },
            record.id,
            record.state == UploadState::Uploaded,
        );
        if record.remote is Some {
            receipts_leave_the_queue(stored, record.id, record.sequence, record.remote->0);
        }
    }
}

/// Storing a namespace change stores exactly that record.
pub proof fn a_mutation_is_stored_as_given(journal: JournalView, record: MutationRecord)
    ensures
        match mutation_saved(journal, record) {
            Ok(after) => after.mutations == journal.mutations.insert(record.id, record)
                && after.uploads == journal.uploads && after.queue == marked(
                journal,
                record.id,
                record.state == MutationState::Applied,
            ).queue && after.prerequisites == journal.prerequisites && after.successors
                == journal.successors && after.last_sequence == journal.last_sequence
                && after.destinations == journal.destinations,
            Err(_) => true,
        },
{
    if journal.mutations.contains_key(record.id) && journal.queue.contains_key(record.id) {
        let stored = marked(
            JournalView { mutations: journal.mutations.insert(record.id, record), ..journal },
            record.id,
            record.state == MutationState::Applied,
        );
        if upserted(record.receipt) is Some {
            receipts_leave_the_queue(stored, record.id, record.sequence, upserted(record.receipt)->0);
        }
    }
}

/// An attempt token fences delayed results: once an attempt ended, nothing more is
/// accepted from it.
pub proof fn an_ended_attempt_is_refused(
    journal: JournalView,
    now: u64,
    id: Id,
    attempt: Id,
    state: UploadState,
    delay: u64,
    remote: Node,
)
    requires
        journal.uploads.contains_key(id) ==> journal.uploads[id].id == id,
    ensures
        match attempt_deferred(journal, now, id, attempt, state, delay) {
            Ok(after) => held(after, id, attempt) == Err::<UploadRecord, JournalError>(
                JournalError::Stale,
            ) && upload_acknowledged(after, id, attempt, remote) == Err::<
                JournalView,
                JournalError,
            >(JournalError::Stale),
            Err(_) => true,
        },
        match upload_acknowledged(journal, id, attempt, remote) {
            Ok(after) => held(after, id, attempt) == Err::<UploadRecord, JournalError>(
                JournalError::Stale,
            ),
            Err(_) => true,
        },
{
    if let Ok(record) = held(journal, id, attempt) {
        an_upload_is_stored_as_given(
            journal,
            UploadRecord {
                state,
                attempt: None,
                retry_at: crate::journal::uploads::retry_time(now, delay),
                failed_attempts: crate::journal::uploads::counted(record.failed_attempts),
                ..record
            },
        );
        an_upload_is_stored_as_given(
            journal,
            UploadRecord {
                remote: Some(remote),
                state: UploadState::Uploaded,
                transferred_bytes: record.size,
                attempt: None,
                ..record
            },
        );
    }
}

/// The same fence holds for namespace changes.
pub proof fn an_ended_mutation_attempt_is_refused(
    journal: JournalView,
    now: u64,
    id: Id,
    attempt: Id,
    state: MutationState,
    delay: u64,
    receipt: MutationReceipt,
    accepted: bool,
)
    requires
        journal.mutations.contains_key(id) ==> journal.mutations[id].id == id,
    ensures
        match mutation_deferred(journal, now, id, attempt, state, delay) {
            Ok(after) => mutation_held(after, id, attempt) == Err::<MutationRecord, JournalError>(
                JournalError::Stale,
            ),
            Err(_) => true,
        },
        match mutation_acknowledged(journal, id, attempt, receipt, accepted) {
            Ok((after, _)) => mutation_held(after, id, attempt) == Err::<
                MutationRecord,
                JournalError,
            >(JournalError::Stale),
            Err(_) => true,
        },
{
    if let Ok(record) = mutation_held(journal, id, attempt) {
        a_mutation_is_stored_as_given(
            journal,
            MutationRecord {
                state,
                attempt: None,
                retry_at: crate::journal::uploads::retry_time(now, delay),
                failed_attempts: crate::journal::uploads::counted(record.failed_attempts),
                ..record
            },
        );
        a_mutation_is_stored_as_given(
            journal,
            MutationRecord {
                state: crate::journal::mutations::reconciled(record, receipt),
                receipt: Some(receipt),
                attempt: None,
                ..record
            },
        );
    }
}

/// The first operation waits for the second, or follows its receipt.
pub open spec fn edge(journal: JournalView, from: Id, to: Id) -> bool {
    journal.prerequisites.contains((from, to)) || (journal.successors.contains_key(to)
        && journal.successors[to] == from)
}

/// Every edge between queued operations points backward, so that no cycle can arise,
/// also across operation kinds; and no place is beyond the last one given out.
pub open spec fn ordered(journal: JournalView) -> bool {
    &&& forall|id: Id| #[trigger]
        journal.queue.contains_key(id) ==> 0 < journal.queue[id].sequence
            && journal.queue[id].sequence <= journal.last_sequence
    &&& forall|from: Id, to: Id| #[trigger]
        edge(journal, from, to) && journal.queue.contains_key(from) && journal.queue.contains_key(to)
            ==> journal.queue[to].sequence < journal.queue[from].sequence
}

/// No edge names the operation yet.
pub open spec fn unnamed(journal: JournalView, id: Id) -> bool {
    &&& forall|other: Id| !(#[trigger] edge(journal, id, other))
    &&& forall|other: Id| !(#[trigger] edge(journal, other, id))
}

proof fn lemma_new_edges(
    journal: JournalView,
    queued: JournalView,
    after: JournalView,
    id: Id,
    base: Option<crate::journal::records::WriteBase>,
    prerequisites: Seq<Id>,
)
    requires
        ordered(journal),
        unnamed(journal, id),
        !journal.queue.contains_key(id),
        queued.last_sequence == journal.last_sequence + 1,
        queued.queue == journal.queue.insert(
            id,
            crate::journal::records::QueueRow { sequence: queued.last_sequence, complete: false },
        ),
        after.queue == queued.queue,
        after.last_sequence == queued.last_sequence,
        after.prerequisites == journal.prerequisites.union(waits(id, prerequisites)),
        match base {
            Some(base) => after.successors == journal.successors.insert(base.predecessor, id)
                && queued_before(queued, base.predecessor, queued.last_sequence),
            None => after.successors == journal.successors,
        },
        forall|i: int|
            0 <= i < prerequisites.len() ==> queued_before(
                queued,
                #[trigger] prerequisites[i],
                queued.last_sequence,
            ),
    ensures
        ordered(after),
{
    assert forall|from: Id, to: Id| #[trigger]
        edge(after, from, to) && after.queue.contains_key(from) && after.queue.contains_key(
            to,
        ) implies after.queue[to].sequence < after.queue[from].sequence by {
        if from == id {
            if after.prerequisites.contains((from, to)) {
                if waits(id, prerequisites).contains((from, to)) {
                    assert(prerequisites.contains(to));
                    let i = choose|i: int| 0 <= i < prerequisites.len() && prerequisites[i] == to;
                    assert(queued_before(queued, prerequisites[i], queued.last_sequence));
                } else {
                    assert(edge(journal, from, to));
                }
            } else if base is Some && to == base->0.predecessor {
            } else {
                assert(edge(journal, from, to));
            }
        } else {
            assert(edge(journal, from, to));
            if to == id {
                assert(edge(journal, from, id));
            }
        }
    }
    assert forall|k: Id| #[trigger] after.queue.contains_key(k) implies 0 < after.queue[k].sequence
        && after.queue[k].sequence <= after.last_sequence by {
        if k != id {
            assert(journal.queue.contains_key(k));
        }
    }
}

/// Queueing an upload keeps every edge pointing backward.
pub proof fn queueing_an_upload_keeps_order(
    journal: JournalView,
    record: UploadRecord,
    prerequisites: Seq<Id>,
)
    requires
        ordered(journal),
        unnamed(journal, record.id),
    ensures
        match upload_queued(journal, record, prerequisites) {
            Ok((after, stored)) => ordered(after) && after.queue[record.id].sequence
                == stored.sequence,
            Err(_) => true,
        },
{
    if let Ok((after, stored)) = upload_queued(journal, record, prerequisites) {
        let queued = enqueued(journal, record.id, upload_keys(record.scope@, record.intent))->Ok_0;
        lemma_new_edges(journal, queued, after, record.id, record.base, prerequisites);
    }
}

/// Queueing a namespace change keeps every edge pointing backward.
pub proof fn queueing_a_mutation_keeps_order(
    journal: JournalView,
    record: MutationRecord,
    prerequisites: Seq<Id>,
)
    requires
        ordered(journal),
        unnamed(journal, record.id),
    ensures
        match mutation_queued(journal, record, prerequisites) {
            Ok((after, stored)) => ordered(after) && after.queue[record.id].sequence
                == stored.sequence,
            Err(_) => true,
        },
{
    if let Ok((after, stored)) = mutation_queued(journal, record, prerequisites) {
        let keys = mutation_keys(record.request)->Ok_0;
        let queued = enqueued(journal, record.id, keys)->Ok_0;
        lemma_new_edges(journal, queued, after, record.id, record.base, prerequisites);
    }
}

/// A place is marked complete exactly while its operation is confirmed.
pub open spec fn flags_agree(journal: JournalView) -> bool {
    &&& forall|id: Id| #[trigger]
        journal.uploads.contains_key(id) ==> journal.uploads[id].id == id
            && !journal.mutations.contains_key(id) && journal.queue.contains_key(id)
            && journal.queue[id].complete == (journal.uploads[id].state == UploadState::Uploaded)
    &&& forall|id: Id| #[trigger]
        journal.mutations.contains_key(id) ==> journal.mutations[id].id == id
            && journal.queue.contains_key(id) && journal.queue[id].complete == (
        journal.mutations[id].state == MutationState::Applied)
}

/// Storing an operation keeps its place in step with its state.
pub proof fn storing_keeps_flags(journal: JournalView, upload: UploadRecord, mutation: MutationRecord)
    requires
        flags_agree(journal),
    ensures
        match upload_saved(journal, upload) {
            Ok(after) => flags_agree(after),
            Err(_) => true,
        },
        match mutation_saved(journal, mutation) {
            Ok(after) => flags_agree(after),
            Err(_) => true,
        },
{
    an_upload_is_stored_as_given(journal, upload);
    a_mutation_is_stored_as_given(journal, mutation);
    if let Ok(after) = upload_saved(journal, upload) {
        assert(journal.uploads.contains_key(upload.id));
        assert forall|id: Id| #[trigger] after.mutations.contains_key(id) implies after.mutations[id].id
            == id && after.queue.contains_key(id) && after.queue[id].complete == (
        after.mutations[id].state == MutationState::Applied) by {
            assert(journal.mutations.contains_key(id));
        }
        assert forall|id: Id| #[trigger] after.uploads.contains_key(id) implies after.uploads[id].id
            == id && !after.mutations.contains_key(id) && after.queue.contains_key(id)
            && after.queue[id].complete == (after.uploads[id].state == UploadState::Uploaded) by {
            assert(journal.uploads.contains_key(id));
        }
    }
    if let Ok(after) = mutation_saved(journal, mutation) {
        assert(journal.mutations.contains_key(mutation.id));
        assert forall|id: Id| #[trigger] after.uploads.contains_key(id) implies after.uploads[id].id
            == id && !after.mutations.contains_key(id) && after.queue.contains_key(id)
            && after.queue[id].complete == (after.uploads[id].state == UploadState::Uploaded) by {
            assert(journal.uploads.contains_key(id));
        }
        assert forall|id: Id| #[trigger] after.mutations.contains_key(id) implies after.mutations[id].id
            == id && after.queue.contains_key(id) && after.queue[id].complete == (
        after.mutations[id].state == MutationState::Applied) by {
            assert(journal.mutations.contains_key(id));
        }
    }
}

/// One unfinished edit blocks every later edit of what it claims: a claim never
/// overtakes it.
pub proof fn an_unfinished_edit_blocks_later_ones(
    journal: JournalView,
    now: u64,
    state: UploadState,
    earlier: Id,
    later: Id,
)
    requires
        journal.queue.contains_key(earlier),
        !journal.queue[earlier].complete,
        journal.uploads.contains_key(later),
        journal.queue[earlier].sequence < journal.uploads[later].sequence,
        contend(journal.resources, earlier, later),
    ensures
        !next_upload(journal, now, state, later),
{
    assert(overtakes(journal, later, journal.uploads[later].sequence));
}

/// Saving an object, or refusing to, keeps the namespace consistent.
pub(crate) proof fn lemma_save_consistent(journal: JournalView, object: NamespaceObject)
    requires
        consistent(journal),
    ensures
        match save_step(journal, object) {
            Ok(after) => consistent(after),
            Err(_) => true,
        },
{
    if save_refusal(journal, object) is None {
        saving_keeps_consistency(journal, object);
    }
}

/// Consistency speaks of the objects alone.
pub(crate) proof fn lemma_same_objects(a: JournalView, b: JournalView)
    requires
        consistent(a),
        a.objects == b.objects,
    ensures
        consistent(b),
{
    assert forall|x: Id, y: Id|
        #![trigger b.objects.contains_key(x), b.objects.contains_key(y)]
        b.objects.contains_key(x) && b.objects.contains_key(y) && x != y implies crate::journal::namespace::apart(
        b.objects[x],
        b.objects[y],
    ) by {
        assert(a.objects.contains_key(x) && a.objects.contains_key(y));
    }
    assert forall|x: Id| #[trigger] b.objects.contains_key(x) implies b.objects[x].id == x by {
        assert(a.objects.contains_key(x));
    }
}

/// A receipt keeps the namespace consistent: no two objects come to share an entry, a
/// provider identity, a local identity or a stream.
pub proof fn a_receipt_keeps_consistency(
    journal: JournalView,
    operation: Id,
    sequence: u64,
    remote: Node,
)
    requires
        consistent(journal),
    ensures
        match confirmed(journal, operation, sequence, remote) {
            Ok(after) => consistent(after),
            Err(_) => true,
        },
        match replaced(journal, operation, sequence, remote) {
            Ok(Some(after)) => consistent(after),
            _ => true,
        },
{
    if journal.operations.contains_key(operation) && journal.objects.contains_key(
        journal.operations[operation],
    ) {
        let object = journal.objects[journal.operations[operation]];
        if let Ok(next) = crate::journal::namespace::bumped(
            crate::journal::receipts::with_receipt(object, sequence, remote),
        ) {
            lemma_save_consistent(journal, next);
        }
    }
    if journal.replacements.contains_key(operation) {
        let record = journal.replacements[operation];
        let source = journal.objects[record.source];
        let victim = journal.objects[record.victim];
        let cleanup = journal.objects[record.cleanup_object];
        lemma_rebound_consistent(journal, record, source, victim, cleanup, sequence, remote);
    }
}

proof fn lemma_rebound_consistent(
    journal: JournalView,
    record: ReplacementRecord,
    source: NamespaceObject,
    victim: NamespaceObject,
    cleanup: NamespaceObject,
    sequence: u64,
    remote: Node,
)
    requires
        consistent(journal),
    ensures
        match rebound(journal, record, source, victim, cleanup, sequence, remote) {
            Ok(after) => consistent(after),
            Err(_) => true,
        },
{
    if let Ok(victim) = crate::journal::namespace::bumped(
        crate::journal::receipts::disowned(victim),
    ) {
        lemma_save_consistent(journal, victim);
        if let Ok(first) = save_step(journal, victim) {
            if let Ok(next) = crate::journal::namespace::bumped(
                crate::journal::receipts::taken_over(source, sequence, remote),
            ) {
                lemma_save_consistent(first, next);
                if let Ok(second) = save_step(first, next) {
                    if let Ok(last) = crate::journal::namespace::bumped(
                        crate::journal::receipts::inherited(
                            cleanup,
                            source.remote->0,
                            source.remote_sequence,
                        ),
                    ) {
                        lemma_save_consistent(second, last);
                        if let Ok(third) = save_step(second, last) {
                            if let Ok(after) = rebound(
                                journal,
                                record,
                                source,
                                victim,
                                cleanup,
                                sequence,
                                remote,
                            ) {
                            }
                            lemma_same_objects(
                                third,
                                JournalView {
                                    replacements: third.replacements.insert(
                                        record.id,
                                        ReplacementRecord { remote_applied: true, ..record },
                                    ),
                                    ..third
                                },
                            );
                        }
                    }
                }
            }
        }
    }
}

/// Acknowledging an upload keeps the namespace consistent.
pub proof fn an_acknowledgement_keeps_consistency(
    journal: JournalView,
    id: Id,
    attempt: Id,
    remote: Node,
)
    requires
        consistent(journal),
    ensures
        match upload_acknowledged(journal, id, attempt, remote) {
            Ok(after) => consistent(after),
            Err(_) => true,
        },
{
    if let Ok(record) = held(journal, id, attempt) {
        let done = UploadRecord {
            remote: Some(remote),
            state: UploadState::Uploaded,
            transferred_bytes: record.size,
            attempt: None,
            ..record
        };
        let stored = marked(
            JournalView { uploads: journal.uploads.insert(done.id, done), ..journal },
            done.id,
            true,
        );
        lemma_same_objects(journal, stored);
        a_receipt_keeps_consistency(stored, done.id, done.sequence, remote);
    }
}

/// Unlinking a file, removing a directory, handing an object off and abandoning a
/// removal keep the namespace consistent.
pub proof fn releases_keep_consistency(
    journal: JournalView,
    operation: Id,
    id: Id,
    revision: u64,
    preserve: bool,
    remote: Node,
    valid: bool,
)
    requires
        consistent(journal),
    ensures
        match file_unlinked(journal, operation, id, revision, preserve, valid) {
            Ok((after, _)) => consistent(after),
            Err(_) => true,
        },
        match directory_removed(journal, operation, id, revision, valid) {
            Ok((after, _)) => consistent(after),
            Err(_) => true,
        },
        match handed_off(journal, id, revision, remote, valid) {
            Ok((after, _)) => consistent(after),
            Err(_) => true,
        },
        match removal_discarded(journal, id) {
            Ok(after) => consistent(after),
            Err(_) => true,
        },
{
    assert forall|state: JournalView, object: NamespaceObject| state.objects == journal.objects implies (
    match #[trigger] save_step(state, object) {
        Ok(after) => consistent(after),
        Err(_) => true,
    }) by {
        lemma_same_objects(journal, state);
        lemma_save_consistent(state, object);
    }
    if let Ok(after) = removal_discarded(journal, id) {
        let object = crate::journal::mutations::operation_object(journal, id)->0;
        let shown = crate::journal::namespace::bumped(
            NamespaceObject { unlinked: false, latest: None, ..object },
        )->Ok_0;
        let state = save_step(journal, shown)->Ok_0;
        lemma_same_objects(state, after);
    }
}

/// A transfer that has to wait holds back nothing that does not contend with it: every
/// other upload may be claimed exactly when it could before.
pub proof fn a_waiting_upload_holds_back_nothing_else(
    journal: JournalView,
    now: u64,
    id: Id,
    attempt: Id,
    state: UploadState,
    delay: u64,
    other: Id,
    later: u64,
    wanted: UploadState,
)
    requires
        flags_agree(journal),
        other != id,
        journal.uploads.contains_key(other),
    ensures
        match attempt_deferred(journal, now, id, attempt, state, delay) {
            Ok(after) => after.uploads[other] == journal.uploads[other] && claimable(
                after,
                later,
                wanted,
                other,
                after.uploads[other],
            ) == claimable(journal, later, wanted, other, journal.uploads[other]),
            Err(_) => true,
        },
{
    if let Ok(after) = attempt_deferred(journal, now, id, attempt, state, delay) {
        assert(journal.uploads.contains_key(id));
        assert(after.queue =~= journal.queue);
        let sequence = journal.uploads[other].sequence;
        assert(overtakes(after, other, sequence) == overtakes(journal, other, sequence));
        assert(satisfied(after, other) == satisfied(journal, other));
    }
}

/// What an interrupted attempt may have sent is looked up before anything is sent
/// again: neither a deferral nor a restart makes its operation pending.
pub proof fn an_interrupted_attempt_is_never_replayed(
    journal: JournalView,
    now: u64,
    id: Id,
    attempt: Id,
    state: UploadState,
    delay: u64,
    later: u64,
)
    requires
        journal.uploads.contains_key(id),
        journal.uploads[id].id == id,
        journal.uploads[id].state == UploadState::Uploading || journal.uploads[id].state
            == UploadState::Verifying,
    ensures
        match attempt_deferred(journal, now, id, attempt, state, delay) {
            Ok(after) => !next_upload(after, later, UploadState::Pending, id),
            Err(_) => true,
        },
        attempts_recovered(journal).uploads[id].state == UploadState::VerifyRequired,
        !next_upload(attempts_recovered(journal), later, UploadState::Pending, id),
{
    if let Ok(record) = held(journal, id, attempt) {
        an_upload_is_stored_as_given(
            journal,
            UploadRecord {
                state,
                attempt: None,
                retry_at: crate::journal::uploads::retry_time(now, delay),
                failed_attempts: crate::journal::uploads::counted(record.failed_attempts),
                ..record
            },
        );
    }
}

/// Nothing is sent before it may be: not what is still being captured, not what leads
/// into a directory that the provider does not know, not what follows a receipt that has
/// not come, and not what readers hold back.
pub proof fn nothing_is_sent_too_early(journal: JournalView, now: u64, id: Id)
    ensures
        next_upload(journal, now, UploadState::Pending, id) ==> {
            &&& journal.uploads[id].state == UploadState::Pending
            &&& destination_ready(journal, id)
            &&& base_bound(journal.uploads[id].base)
            &&& replacement_ready(journal, id)
            &&& satisfied(journal, id)
        },
        next_mutation(journal, now, id) ==> {
            &&& journal.mutations[id].local_ready
            &&& destination_ready(journal, id)
            &&& base_bound(journal.mutations[id].base)
            &&& satisfied(journal, id)
        },
{
}

/// Only the bytes of acknowledged uploads are ever collected: whatever else is in the
/// journal keeps its bytes.
pub proof fn only_acknowledged_bytes_are_collected(journal: JournalView, id: Id)
    requires
        journal.uploads.contains_key(id),
        collectable(journal)(id, journal.uploads[id]),
    ensures
        journal.uploads[id].state == UploadState::Uploaded,
{
}

} // verus!
