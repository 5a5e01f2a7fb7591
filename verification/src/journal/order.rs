//! Every operation keeps the queue sound: edges point backward, a place is complete
//! exactly while its operation is confirmed, and every operation knows its place.
use crate::journal::ancestry::{routes, RoutesView};
use crate::journal::capture::{entries_captured, entry_captured, path_captured};
use crate::journal::directories::{
    batch, destination_resolved, directable_rows, directed_all, directory_created,
    directory_removed, removal_plan,
};
use crate::journal::generations::{answered, based, mutation_resolved, upload_resolved};
use crate::journal::handoff::handed_off;
use crate::journal::laws::{
    edge, flags_agree, ordered, queueing_a_mutation_keeps_order, queueing_an_upload_keeps_order,
    receipts_leave_the_queue, unnamed,
};
use crate::journal::listing::{chosen, earlier, lemma_listed, listing, Sequenced};
use crate::journal::migration::{
    all_applied, all_attached, all_queued, all_succeeded, all_uploaded, applied_in_order,
    bound_to, place_taken, queued_again, receipt_adopted, streams_in_order, succeeded, upgraded,
    uploaded_in_order, uploads_in_order, NAMESPACE_VERSION, QUEUE_VERSION, SUCCESSOR_VERSION,
};
use crate::journal::mutations::{
    mutation_acknowledged, mutation_claimed, mutation_deferred, mutation_enqueued,
    mutation_queued, mutation_retried, mutation_retry_requested, mutation_taken, new_mutation,
    next_mutation, removal_discarded, request_enqueued, request_following,
};
use crate::journal::observation::{attached, attached_to, configured, file_observed};
use crate::journal::preparation::{
    capture_finished, capture_recorded, next_prepared, next_preparation, preparation_claimed,
    preparation_deferred,
};
use crate::journal::receipts::{marked, mutation_saved, upload_saved, upserted};
use crate::journal::records::{
    JournalError, JournalView, MutationRecord, MutationState, NamespaceNames, NamespaceObject, QueueRow,
    UploadRecord, UploadState, WorkingFile, WriteBase,
};
use crate::journal::recovery::{empty_journal, gates_closed};
use crate::journal::replacements::{
    preparation_for, publication_base, publication_prerequisites, replacement_committed,
    replacement_released, replacements_released_all, source_prepared, stream_replaced,
    ReplacementIds, ReplacementPlan,
};
use crate::journal::sealing::{Sealed, Usage, WorkingSource};
use crate::journal::unlinked::{
    file_unlinked, readers_released, readers_released_all, unlink_plan,
};
use crate::journal::uploads::{
    attempt_deferred, attempts_recovered, claimed_next, following, generation_enqueued,
    new_upload, next_upload, next_verified, retried, retry_requested, session_recorded, upload_acknowledged,
    upload_queued, verification_claimed,
};
use crate::journal::working::{
    change_begun, change_finished, file_relocated, object_request, relocating, relocating_file,
    relocation_refusal, sealing, seals_with, stream_published, stream_published_for,
    stream_recovered, stream_relocated, stream_request, stream_saved, stream_sealed,
};
use crate::model::{
    Id, MutationIntent, MutationReceipt, MutationRequest, Node, Scope, UploadIntent,
};
use vstd::prelude::*;

verus! {

/// Every operation knows the place it has in the queue.
pub open spec fn places_agree(journal: JournalView) -> bool {
    &&& forall|id: Id| #[trigger]
        journal.uploads.contains_key(id) ==> journal.uploads[id].sequence
            == journal.queue[id].sequence
    &&& forall|id: Id| #[trigger]
        journal.mutations.contains_key(id) ==> journal.mutations[id].sequence
            == journal.queue[id].sequence
}

/// Edges point backward, places are complete exactly while their operations are
/// confirmed, and every operation knows its place.
pub open spec fn queue_sound(journal: JournalView) -> bool {
    &&& ordered(journal)
    &&& flags_agree(journal)
    &&& places_agree(journal)
}

/// Two journals with the same operations in the same places.
pub open spec fn same_queue(a: JournalView, b: JournalView) -> bool {
    &&& a.last_sequence == b.last_sequence
    &&& a.queue == b.queue
    &&& a.successors == b.successors
    &&& a.prerequisites == b.prerequisites
    &&& a.uploads == b.uploads
    &&& a.mutations == b.mutations
}

/// A new journal has a sound queue.
pub proof fn new_journals_have_a_sound_queue(account: Seq<char>, quota: u64)
    ensures
        queue_sound(empty_journal(account, quota)),
{
}

/// What holds of a queue holds of the same queue.
proof fn lemma_same_queue(a: JournalView, b: JournalView)
    requires
        same_queue(a, b),
    ensures
        queue_sound(a) ==> queue_sound(b),
        forall|id: Id| #[trigger] unnamed(b, id) <==> unnamed(a, id),
{
    assert forall|from: Id, to: Id| #[trigger] edge(b, from, to) <==> edge(a, from, to) by {}
    assert forall|id: Id| #[trigger] unnamed(b, id) <==> unnamed(a, id) by {
        if unnamed(a, id) {
            assert forall|other: Id| !(#[trigger] edge(b, id, other)) by {
                assert(!edge(a, id, other));
            }
            assert forall|other: Id| !(#[trigger] edge(b, other, id)) by {
                assert(!edge(a, other, id));
            }
        }
        if unnamed(b, id) {
            assert forall|other: Id| !(#[trigger] edge(a, id, other)) by {
                assert(!edge(b, id, other));
            }
            assert forall|other: Id| !(#[trigger] edge(a, other, id)) by {
                assert(!edge(b, other, id));
            }
        }
    }
    if queue_sound(a) {
        assert forall|from: Id, to: Id| #[trigger]
            edge(b, from, to) && b.queue.contains_key(from) && b.queue.contains_key(
                to,
            ) implies b.queue[to].sequence < b.queue[from].sequence by {
            assert(edge(a, from, to));
        }
    }
}

/// Storing an upload keeps the queue sound, as long as it keeps its place.
proof fn lemma_upload_stored(journal: JournalView, record: UploadRecord)
    requires
        queue_sound(journal),
        journal.uploads.contains_key(record.id) ==> record.sequence
            == journal.uploads[record.id].sequence,
    ensures
        match upload_saved(journal, record) {
            Ok(after) => queue_sound(after),
            Err(_) => true,
        },
{
    if let Ok(after) = upload_saved(journal, record) {
        let stored = marked(
            JournalView { uploads: journal.uploads.insert(record.id, record), ..journal },
            record.id,
            record.state == UploadState::Uploaded,
        );
        lemma_marked(journal, stored, record.id, record.state == UploadState::Uploaded);
        assert(queue_sound(stored)) by {
            assert(journal.uploads.contains_key(record.id));
            assert forall|id: Id| #[trigger]
                stored.uploads.contains_key(id) implies stored.uploads[id].id == id
                && !stored.mutations.contains_key(id) && stored.queue.contains_key(id)
                && stored.queue[id].complete == (stored.uploads[id].state == UploadState::Uploaded)
                && stored.uploads[id].sequence == stored.queue[id].sequence by {
                assert(journal.uploads.contains_key(id));
            }
            assert forall|id: Id| #[trigger]
                stored.mutations.contains_key(id) implies stored.mutations[id].id == id
                && stored.queue.contains_key(id) && stored.queue[id].complete == (
            stored.mutations[id].state == MutationState::Applied) && stored.mutations[id].sequence
                == stored.queue[id].sequence by {
                assert(journal.mutations.contains_key(id));
            }
        }
        if record.state == UploadState::Uploaded && record.remote is Some {
            receipts_leave_the_queue(stored, record.id, record.sequence, record.remote->0);
            lemma_same_queue(stored, after);
        }
    }
}

/// Marking a place keeps the order.
proof fn lemma_marked(journal: JournalView, stored: JournalView, id: Id, complete: bool)
    requires
        ordered(journal),
        journal.queue.contains_key(id),
        stored.last_sequence == journal.last_sequence,
        stored.prerequisites == journal.prerequisites,
        stored.successors == journal.successors,
        stored.queue == marked(journal, id, complete).queue,
    ensures
        ordered(stored),
{
    assert forall|k: Id| #[trigger] stored.queue.contains_key(k) implies 0 < stored.queue[k].sequence
        && stored.queue[k].sequence <= stored.last_sequence by {
        assert(journal.queue.contains_key(k));
    }
    assert forall|from: Id, to: Id| #[trigger]
        edge(stored, from, to) && stored.queue.contains_key(from) && stored.queue.contains_key(
            to,
        ) implies stored.queue[to].sequence < stored.queue[from].sequence by {
        assert(edge(journal, from, to));
        assert(journal.queue.contains_key(from) && journal.queue.contains_key(to));
    }
}

/// Storing a namespace change keeps the queue sound, as long as it keeps its place.
proof fn lemma_mutation_stored(journal: JournalView, record: MutationRecord)
    requires
        queue_sound(journal),
        journal.mutations.contains_key(record.id) ==> record.sequence
            == journal.mutations[record.id].sequence,
    ensures
        match mutation_saved(journal, record) {
            Ok(after) => queue_sound(after),
            Err(_) => true,
        },
{
    if let Ok(after) = mutation_saved(journal, record) {
        let stored = marked(
            JournalView { mutations: journal.mutations.insert(record.id, record), ..journal },
            record.id,
            record.state == MutationState::Applied,
        );
        lemma_marked(journal, stored, record.id, record.state == MutationState::Applied);
        assert(queue_sound(stored)) by {
            assert(journal.mutations.contains_key(record.id));
            assert forall|id: Id| #[trigger]
                stored.uploads.contains_key(id) implies stored.uploads[id].id == id
                && !stored.mutations.contains_key(id) && stored.queue.contains_key(id)
                && stored.queue[id].complete == (stored.uploads[id].state == UploadState::Uploaded)
                && stored.uploads[id].sequence == stored.queue[id].sequence by {
                assert(journal.uploads.contains_key(id));
            }
            assert forall|id: Id| #[trigger]
                stored.mutations.contains_key(id) implies stored.mutations[id].id == id
                && stored.queue.contains_key(id) && stored.queue[id].complete == (
            stored.mutations[id].state == MutationState::Applied) && stored.mutations[id].sequence
                == stored.queue[id].sequence by {
                assert(journal.mutations.contains_key(id));
            }
        }
        if record.state == MutationState::Applied && upserted(record.receipt) is Some {
            receipts_leave_the_queue(
                stored,
                record.id,
                record.sequence,
                upserted(record.receipt)->0,
            );
            lemma_same_queue(stored, after);
        }
    }
}

/// Whatever is stored of the operations at hand keeps the queue sound.
proof fn lemma_stores(journal: JournalView)
    requires
        queue_sound(journal),
    ensures
        forall|record: UploadRecord|
            (journal.uploads.contains_key(record.id) ==> record.sequence
                == journal.uploads[record.id].sequence) ==> match #[trigger] upload_saved(
                journal,
                record,
            ) {
                Ok(after) => queue_sound(after),
                Err(_) => true,
            },
        forall|record: MutationRecord|
            (journal.mutations.contains_key(record.id) ==> record.sequence
                == journal.mutations[record.id].sequence) ==> match #[trigger] mutation_saved(
                journal,
                record,
            ) {
                Ok(after) => queue_sound(after),
                Err(_) => true,
            },
{
    assert forall|record: UploadRecord|
        (journal.uploads.contains_key(record.id) ==> record.sequence
            == journal.uploads[record.id].sequence) implies (match #[trigger] upload_saved(
        journal,
        record,
    ) {
        Ok(after) => queue_sound(after),
        Err(_) => true,
    }) by {
        lemma_upload_stored(journal, record);
    }
    assert forall|record: MutationRecord|
        (journal.mutations.contains_key(record.id) ==> record.sequence
            == journal.mutations[record.id].sequence) implies (match #[trigger] mutation_saved(
        journal,
        record,
    ) {
        Ok(after) => queue_sound(after),
        Err(_) => true,
    }) by {
        lemma_mutation_stored(journal, record);
    }
}

/// Queueing a new upload keeps the queue sound, and every other new identity new.
proof fn lemma_upload_queued(journal: JournalView, record: UploadRecord, prerequisites: Seq<Id>)
    requires
        queue_sound(journal),
        unnamed(journal, record.id) || journal.queue.contains_key(record.id),
        record.state != UploadState::Uploaded,
    ensures
        match upload_queued(journal, record, prerequisites) {
            Ok((after, stored)) => queue_sound(after) && stored.id == record.id
                && forall|id: Id| #[trigger]
                unnamed(journal, id) ==> unnamed(after, id) || after.queue.contains_key(id),
            Err(_) => true,
        },
{
    if let Ok((after, _)) = upload_queued(journal, record, prerequisites) {
        queueing_an_upload_keeps_order(journal, record, prerequisites);
        assert forall|id: Id| #[trigger]
            after.uploads.contains_key(id) implies after.uploads[id].id == id
            && !after.mutations.contains_key(id) && after.queue.contains_key(id)
            && after.queue[id].complete == (after.uploads[id].state == UploadState::Uploaded)
            && after.uploads[id].sequence == after.queue[id].sequence by {
            if id != record.id {
                assert(journal.uploads.contains_key(id));
            } else {
                assert(!journal.mutations.contains_key(id));
            }
        }
        assert forall|id: Id| #[trigger]
            after.mutations.contains_key(id) implies after.mutations[id].id == id
            && after.queue.contains_key(id) && after.queue[id].complete == (
        after.mutations[id].state == MutationState::Applied) && after.mutations[id].sequence
            == after.queue[id].sequence by {
            assert(journal.mutations.contains_key(id));
        }
        lemma_names_left(journal, after, record.id, record.base, prerequisites);
    }
}

/// Queueing a new namespace change keeps the queue sound, and every other new identity
/// new.
proof fn lemma_mutation_queued(
    journal: JournalView,
    record: MutationRecord,
    prerequisites: Seq<Id>,
)
    requires
        queue_sound(journal),
        unnamed(journal, record.id) || journal.queue.contains_key(record.id),
        record.state != MutationState::Applied,
    ensures
        match mutation_queued(journal, record, prerequisites) {
            Ok((after, stored)) => queue_sound(after) && stored.id == record.id
                && forall|id: Id| #[trigger]
                unnamed(journal, id) ==> unnamed(after, id) || after.queue.contains_key(id),
            Err(_) => true,
        },
{
    if let Ok((after, _)) = mutation_queued(journal, record, prerequisites) {
        queueing_a_mutation_keeps_order(journal, record, prerequisites);
        assert forall|id: Id| #[trigger]
            after.uploads.contains_key(id) implies after.uploads[id].id == id
            && !after.mutations.contains_key(id) && after.queue.contains_key(id)
            && after.queue[id].complete == (after.uploads[id].state == UploadState::Uploaded)
            && after.uploads[id].sequence == after.queue[id].sequence by {
            assert(journal.uploads.contains_key(id));
        }
        assert forall|id: Id| #[trigger]
            after.mutations.contains_key(id) implies after.mutations[id].id == id
            && after.queue.contains_key(id) && after.queue[id].complete == (
        after.mutations[id].state == MutationState::Applied) && after.mutations[id].sequence
            == after.queue[id].sequence by {
            if id != record.id {
                assert(journal.mutations.contains_key(id));
            }
        }
        lemma_names_left(journal, after, record.id, record.base, prerequisites);
    }
}

/// The edges that queueing adds name queued operations alone.
proof fn lemma_names_left(
    journal: JournalView,
    after: JournalView,
    id: Id,
    base: Option<WriteBase>,
    prerequisites: Seq<Id>,
)
    requires
        after.queue.contains_key(id),
        after.prerequisites == journal.prerequisites.union(
            crate::journal::queue::waits(id, prerequisites),
        ),
        match base {
            Some(base) => after.successors == journal.successors.insert(base.predecessor, id)
                && after.queue.contains_key(base.predecessor),
            None => after.successors == journal.successors,
        },
        forall|i: int|
            0 <= i < prerequisites.len() ==> after.queue.contains_key(#[trigger] prerequisites[i]),
    ensures
        forall|other: Id| #[trigger]
            unnamed(journal, other) ==> unnamed(after, other) || after.queue.contains_key(other),
{
    assert forall|other: Id| #[trigger] unnamed(journal, other) implies unnamed(after, other)
        || after.queue.contains_key(other) by {
        if !after.queue.contains_key(other) {
            assert forall|far: Id| !(#[trigger] edge(after, other, far)) by {
                assert(!edge(journal, other, far));
            }
            assert forall|far: Id| !(#[trigger] edge(after, far, other)) by {
                assert(!edge(journal, far, other));
                if crate::journal::queue::waits(id, prerequisites).contains((far, other)) {
                    let i = choose|i: int|
                        0 <= i < prerequisites.len() && prerequisites[i] == other;
                    assert(after.queue.contains_key(prerequisites[i]));
                }
            }
        }
    }
}

/// Storing objects, streams, rules and routes keeps the queue sound.
pub proof fn entries_keep_the_queue_sound(
    journal: JournalView,
    id: Id,
    scope: Scope,
    node: Node,
    names: NamespaceNames,
    existing: Option<NamespaceObject>,
    file: WorkingFile,
    revision: u64,
    ids: Seq<Id>,
    entries: Seq<(Scope, Node)>,
    valid: bool,
)
    requires
        queue_sound(journal),
    ensures
        match configured(journal, scope, names) {
            Ok(after) => queue_sound(after),
            Err(_) => true,
        },
        match file_observed(journal, id, scope, node, valid) {
            Ok((after, _)) => queue_sound(after),
            Err(_) => true,
        },
        match attached_to(journal, existing, file) {
            Ok((after, _)) => queue_sound(after),
            Err(_) => true,
        },
        match stream_saved(journal, file) {
            Ok(after) => queue_sound(after),
            Err(_) => true,
        },
        match path_captured(journal, ids, entries) {
            Ok(after) => queue_sound(after),
            Err(_) => true,
        },
        match handed_off(journal, id, revision, node, valid) {
            Ok((after, _)) => queue_sound(after),
            Err(_) => true,
        },
{
    if let Ok(after) = configured(journal, scope, names) {
        lemma_same_queue(journal, after);
    }
    if let Ok((after, _)) = file_observed(journal, id, scope, node, valid) {
        lemma_same_queue(journal, after);
    }
    if let Ok((after, _)) = attached_to(journal, existing, file) {
        lemma_same_queue(journal, after);
    }
    if let Ok(after) = stream_saved(journal, file) {
        lemma_same_queue(journal, after);
    }
    if let Ok(after) = path_captured(journal, ids, entries) {
        lemma_entries_leave_the_queue(
            journal,
            routes(journal.objects),
            journal.objects.len() as int,
            ids,
            entries,
            0,
        );
        lemma_same_queue(journal, after);
    }
    if let Ok((after, _)) = handed_off(journal, id, revision, node, valid) {
        lemma_same_queue(journal, after);
    }
}

proof fn lemma_entries_leave_the_queue(
    journal: JournalView,
    kept: RoutesView,
    count: int,
    ids: Seq<Id>,
    entries: Seq<(Scope, Node)>,
    from: int,
)
    ensures
        match entries_captured(journal, kept, count, ids, entries, from) {
            Ok(after) => same_queue(journal, after),
            Err(_) => true,
        },
    decreases entries.len() - from,
{
    if 0 <= from < entries.len() {
        let (scope, node) = entries[from];
        if let Ok((state, more)) = entry_captured(journal, kept, count, ids[from], scope, node) {
            assert(same_queue(journal, state));
            lemma_entries_leave_the_queue(state, kept, more, ids, entries, from + 1);
        }
    }
}

/// Publishing, changing and recovering a stream keep the queue sound.
pub proof fn streams_keep_the_queue_sound(
    journal: JournalView,
    id: Id,
    object: Id,
    local: String,
    version: String,
    scope: Scope,
    node: Node,
    new: bool,
    source: WorkingSource,
    own: bool,
    valid: bool,
    size: u64,
    length: u64,
    retained: u64,
    now: u64,
)
    requires
        queue_sound(journal),
    ensures
        match stream_published(journal, id, local, version, scope, node, new, source, own, valid) {
            Ok((after, _)) => queue_sound(after),
            Err(_) => true,
        },
        match stream_published_for(journal, id, version, object, scope, node, source, own) {
            Ok((after, _)) => queue_sound(after),
            Err(_) => true,
        },
        match change_begun(journal, id, size, length, retained) {
            Ok((after, _)) => queue_sound(after),
            Err(_) => true,
        },
        match change_finished(journal, id, size, now) {
            Ok((after, _)) => queue_sound(after),
            Err(_) => true,
        },
        match stream_recovered(journal, id, length) {
            Ok(after) => queue_sound(after),
            Err(_) => true,
        },
{
    if let Ok(after) = stream_recovered(journal, id, length) {
        lemma_same_queue(journal, after);
    }
    if let Ok((after, _)) = stream_published(
        journal,
        id,
        local,
        version,
        scope,
        node,
        new,
        source,
        own,
        valid,
    ) {
        lemma_same_queue(journal, after);
    }
    if let Ok((after, _)) = stream_published_for(
        journal,
        id,
        version,
        object,
        scope,
        node,
        source,
        own,
    ) {
        lemma_same_queue(journal, after);
    }
    if let Ok((after, _)) = change_begun(journal, id, size, length, retained) {
        lemma_same_queue(journal, after);
    }
    if let Ok((after, _)) = change_finished(journal, id, size, now) {
        lemma_same_queue(journal, after);
    }
}

/// Claiming, deferring, retrying and acknowledging an upload keep the queue sound.
pub proof fn transfers_keep_the_queue_sound(
    journal: JournalView,
    now: u64,
    id: Id,
    attempt: Id,
    key: Id,
    transferred: u64,
    state: UploadState,
    delay: u64,
    payload: Result<(), JournalError>,
    remote: Node,
)
    requires
        queue_sound(journal),
    ensures
        match session_recorded(journal, id, attempt, key, transferred) {
            Ok(after) => queue_sound(after),
            Err(_) => true,
        },
        match attempt_deferred(journal, now, id, attempt, state, delay) {
            Ok(after) => queue_sound(after),
            Err(_) => true,
        },
        match retried(journal, id, payload) {
            Ok(after) => queue_sound(after),
            Err(_) => true,
        },
        match retry_requested(journal, id) {
            Ok(after) => queue_sound(after),
            Err(_) => true,
        },
        match verification_claimed(journal, attempt, id) {
            Ok((after, _)) => queue_sound(after),
            Err(_) => true,
        },
        match upload_acknowledged(journal, id, attempt, remote) {
            Ok(after) => queue_sound(after),
            Err(_) => true,
        },
{
    lemma_stores(journal);
    assert(journal.uploads.contains_key(id) ==> journal.uploads[id].id == id);
}

/// Claiming the next upload keeps the queue sound, whether its bytes are intact or not;
/// so does claiming the next uncertain one.
pub proof fn upload_claims_keep_the_queue_sound(
    journal: JournalView,
    now: u64,
    attempt: Id,
    id: Id,
    payload: Result<(), JournalError>,
    result: Result<Option<UploadRecord>, JournalError>,
    after: JournalView,
)
    requires
        queue_sound(journal),
        claimed_next(journal, now, attempt, id, payload, result, after) || next_verified(
            journal,
            now,
            attempt,
            result,
            after,
        ),
    ensures
        queue_sound(after),
{
    lemma_stores(journal);
    if claimed_next(journal, now, attempt, id, payload, result, after) {
        if next_upload(journal, now, UploadState::Pending, id) {
            assert(journal.uploads.contains_key(id));
        }
    } else if exists|id: Id| next_upload(journal, now, UploadState::VerifyRequired, id) {
        let chosen = choose|id: Id| #[trigger]
            next_upload(journal, now, UploadState::VerifyRequired, id) && match (
                verification_claimed(journal, attempt, id),
                result,
            ) {
                (Ok((state, record)), Ok(Some(found))) => found == record && after == state,
                (Err(wanted), Err(error)) => wanted == error && after == journal,
                _ => false,
            };
        assert(journal.uploads.contains_key(chosen));
    }
}

/// Claiming, deferring, retrying, acknowledging and discarding a namespace change keep
/// the queue sound.
pub proof fn changes_keep_the_queue_sound(
    journal: JournalView,
    now: u64,
    id: Id,
    attempt: Id,
    state: MutationState,
    delay: u64,
    receipt: MutationReceipt,
    accepted: bool,
)
    requires
        queue_sound(journal),
    ensures
        match mutation_acknowledged(journal, id, attempt, receipt, accepted) {
            Ok((after, _)) => queue_sound(after),
            Err(_) => true,
        },
        match mutation_deferred(journal, now, id, attempt, state, delay) {
            Ok(after) => queue_sound(after),
            Err(_) => true,
        },
        match mutation_retried(journal, id, attempt) {
            Ok(after) => queue_sound(after),
            Err(_) => true,
        },
        match mutation_retry_requested(journal, id) {
            Ok(after) => queue_sound(after),
            Err(_) => true,
        },
        match removal_discarded(journal, id) {
            Ok(after) => queue_sound(after),
            Err(_) => true,
        },
        match readers_released(journal, id) {
            Ok(after) => queue_sound(after),
            Err(_) => true,
        },
{
    lemma_stores(journal);
    assert(journal.mutations.contains_key(id) ==> journal.mutations[id].id == id);
    if let Ok(after) = removal_discarded(journal, id) {
        assert forall|k: Id| #[trigger] after.queue.contains_key(k) implies journal.queue.contains_key(
            k,
        ) && after.queue[k] == journal.queue[k] by {}
        assert forall|from: Id, to: Id| #[trigger]
            edge(after, from, to) && after.queue.contains_key(from) && after.queue.contains_key(
                to,
            ) implies after.queue[to].sequence < after.queue[from].sequence by {
            assert(edge(journal, from, to));
        }
        assert forall|k: Id| #[trigger] after.uploads.contains_key(k) implies after.uploads[k].id
            == k && !after.mutations.contains_key(k) && after.queue.contains_key(k)
            && after.queue[k].complete == (after.uploads[k].state == UploadState::Uploaded)
            && after.uploads[k].sequence == after.queue[k].sequence by {
            assert(journal.uploads.contains_key(k));
        }
        assert forall|k: Id| #[trigger] after.mutations.contains_key(k) implies after.mutations[k].id
            == k && after.queue.contains_key(k) && after.queue[k].complete == (
        after.mutations[k].state == MutationState::Applied) && after.mutations[k].sequence
            == after.queue[k].sequence by {
            assert(journal.mutations.contains_key(k));
        }
    }
}

/// Claiming the next namespace change keeps the queue sound.
pub proof fn change_claims_keep_the_queue_sound(
    journal: JournalView,
    now: u64,
    attempt: Id,
    result: Result<Option<MutationRecord>, JournalError>,
    after: JournalView,
)
    requires
        queue_sound(journal),
        mutation_claimed(journal, now, attempt, result, after),
    ensures
        queue_sound(after),
{
    lemma_stores(journal);
    if exists|id: Id| next_mutation(journal, now, id) {
        let chosen = choose|id: Id| #[trigger]
            next_mutation(journal, now, id) && match (
                mutation_saved(journal, mutation_taken(journal.mutations[id], attempt)),
                result,
            ) {
                (Ok(state), Ok(Some(found))) => found == mutation_taken(
                    journal.mutations[id],
                    attempt,
                ) && after == state,
                (Err(wanted), Err(error)) => wanted == error && after == journal,
                _ => false,
            };
        assert(journal.mutations.contains_key(chosen));
    }
}

/// Another form of an upload in the same state and place keeps the queue sound.
proof fn lemma_upload_kept(journal: JournalView, id: Id, record: UploadRecord, after: JournalView)
    requires
        queue_sound(journal),
        journal.uploads.contains_key(id),
        record.id == id,
        record.sequence == journal.uploads[id].sequence,
        journal.queue[id].complete == (record.state == UploadState::Uploaded),
        after.uploads == journal.uploads.insert(id, record),
        after.mutations == journal.mutations,
        after.queue == journal.queue,
        after.last_sequence == journal.last_sequence,
        after.prerequisites == journal.prerequisites,
        after.successors == journal.successors,
    ensures
        queue_sound(after),
{
    lemma_same_queue(journal, JournalView { uploads: journal.uploads, ..after });
    assert(ordered(after)) by {
        assert forall|from: Id, to: Id| #[trigger]
            edge(after, from, to) && after.queue.contains_key(from) && after.queue.contains_key(
                to,
            ) implies after.queue[to].sequence < after.queue[from].sequence by {
            assert(edge(journal, from, to));
        }
    }
    assert forall|k: Id| #[trigger] after.uploads.contains_key(k) implies after.uploads[k].id == k
        && !after.mutations.contains_key(k) && after.queue.contains_key(k)
        && after.queue[k].complete == (after.uploads[k].state == UploadState::Uploaded)
        && after.uploads[k].sequence == after.queue[k].sequence by {
        assert(journal.uploads.contains_key(k));
    }
}

/// Another form of a namespace change in the same state and place keeps the queue sound.
proof fn lemma_mutation_kept(
    journal: JournalView,
    id: Id,
    record: MutationRecord,
    after: JournalView,
)
    requires
        queue_sound(journal),
        journal.mutations.contains_key(id),
        record.id == id,
        record.sequence == journal.mutations[id].sequence,
        journal.queue[id].complete == (record.state == MutationState::Applied),
        after.mutations == journal.mutations.insert(id, record),
        after.uploads == journal.uploads,
        after.queue == journal.queue,
        after.last_sequence == journal.last_sequence,
        after.prerequisites == journal.prerequisites,
        after.successors == journal.successors,
    ensures
        queue_sound(after),
{
    assert(ordered(after)) by {
        assert forall|from: Id, to: Id| #[trigger]
            edge(after, from, to) && after.queue.contains_key(from) && after.queue.contains_key(
                to,
            ) implies after.queue[to].sequence < after.queue[from].sequence by {
            assert(edge(journal, from, to));
        }
    }
    assert forall|k: Id| #[trigger] after.mutations.contains_key(k) implies after.mutations[k].id
        == k && after.queue.contains_key(k) && after.queue[k].complete == (after.mutations[k].state
        == MutationState::Applied) && after.mutations[k].sequence == after.queue[k].sequence by {
        assert(journal.mutations.contains_key(k));
    }
    assert forall|k: Id| #[trigger] after.uploads.contains_key(k) implies after.uploads[k].id == k
        && !after.mutations.contains_key(k) && after.queue.contains_key(k)
        && after.queue[k].complete == (after.uploads[k].state == UploadState::Uploaded)
        && after.uploads[k].sequence == after.queue[k].sequence by {
        assert(journal.uploads.contains_key(k));
    }
}

/// Binding an operation to its receipt keeps the queue sound.
pub proof fn bindings_keep_the_queue_sound(journal: JournalView, id: Id, valid: bool)
    requires
        queue_sound(journal),
    ensures
        match upload_resolved(journal, id, valid) {
            Ok(after) => queue_sound(after),
            Err(_) => true,
        },
        match mutation_resolved(journal, id, valid) {
            Ok(after) => queue_sound(after),
            Err(_) => true,
        },
{
    lemma_stores(journal);
    if let Ok(after) = upload_resolved(journal, id, valid) {
        assert(journal.uploads.contains_key(id));
        if after.uploads.contains_key(id) && after.queue == journal.queue && after.uploads
            == journal.uploads.insert(id, after.uploads[id]) && after.uploads[id].state
            == journal.uploads[id].state {
            lemma_upload_kept(journal, id, after.uploads[id], after);
        }
    }
    if let Ok(after) = mutation_resolved(journal, id, valid) {
        assert(journal.mutations.contains_key(id));
        if after.queue == journal.queue && after.mutations == journal.mutations.insert(
            id,
            after.mutations[id],
        ) && after.mutations[id].state == journal.mutations[id].state {
            lemma_mutation_kept(journal, id, after.mutations[id], after);
        }
    }
}

/// Settling the destination of an unfinished operation keeps the queue sound and leaves
/// every place alone.
proof fn lemma_destination(journal: JournalView, id: Id)
    requires
        queue_sound(journal),
        journal.queue.contains_key(id) ==> !journal.queue[id].complete,
    ensures
        match destination_resolved(journal, id) {
            Ok(after) => queue_sound(after) && after.queue == journal.queue,
            Err(_) => true,
        },
{
    if let Ok(after) = destination_resolved(journal, id) {
        if journal.uploads.contains_key(id) {
            assert(journal.queue.contains_key(id));
            lemma_upload_kept(journal, id, after.uploads[id], after);
        } else {
            assert(journal.mutations.contains_key(id));
            lemma_mutation_kept(journal, id, after.mutations[id], after);
        }
    }
}

proof fn lemma_destinations(journal: JournalView, rows: Seq<(u64, Id)>)
    requires
        queue_sound(journal),
        forall|i: int|
            0 <= i < rows.len() && journal.queue.contains_key((#[trigger] rows[i]).1)
                ==> !journal.queue[rows[i].1].complete,
    ensures
        queue_sound(directed_all(journal, rows).0),
    decreases rows.len(),
{
    if rows.len() > 0 {
        lemma_destination(journal, rows[0].1);
        if let Ok(state) = destination_resolved(journal, rows[0].1) {
            let rest = rows.drop_first();
            assert forall|i: int|
                0 <= i < rest.len() && state.queue.contains_key(
                    (#[trigger] rest[i]).1,
                ) implies !state.queue[rest[i].1].complete by {
                assert(rest[i] == rows[i + 1]);
            }
            lemma_destinations(state, rest);
        }
    }
}

/// Settling destinations keeps the queue sound: that of one unfinished operation, and
/// a batch of those that can be settled now.
pub proof fn destinations_keep_the_queue_sound(
    journal: JournalView,
    id: Id,
    rows: Seq<(u64, Id)>,
    limit: int,
)
    requires
        queue_sound(journal),
        journal.queue.contains_key(id) ==> !journal.queue[id].complete,
        listing(journal.queue, directable_rows(journal), rows),
        0 <= limit,
    ensures
        match destination_resolved(journal, id) {
            Ok(after) => queue_sound(after),
            Err(_) => true,
        },
        queue_sound(directed_all(journal, batch(rows, limit)).0),
{
    lemma_destination(journal, id);
    let part = batch(rows, limit);
    assert forall|i: int|
        0 <= i < part.len() && journal.queue.contains_key(
            (#[trigger] part[i]).1,
        ) implies !journal.queue[part[i].1].complete by {
        assert(part[i] == rows[i]);
        assert(rows.contains(rows[i]));
        assert(directable_rows(journal)(rows[i].1, journal.queue[rows[i].1]));
    }
    lemma_destinations(journal, part);
}

/// Preparing the bytes of an upload keeps the queue sound.
pub proof fn preparations_keep_the_queue_sound(
    journal: JournalView,
    now: u64,
    id: Id,
    attempt: Id,
    conflict: bool,
    delay: u64,
    source: WorkingSource,
    fetched: Option<WorkingSource>,
    own: bool,
    existing: Option<Seq<char>>,
    usage: Usage,
    digest: String,
    stream: Id,
    version: String,
)
    requires
        queue_sound(journal),
    ensures
        match preparation_deferred(journal, now, id, attempt, conflict, delay) {
            Ok(after) => queue_sound(after),
            Err(_) => true,
        },
        match capture_recorded(journal, id, attempt, source, own, existing, usage, digest) {
            Ok(after) => queue_sound(after),
            Err(_) => true,
        },
        match capture_finished(journal, id, attempt, digest, stream, version, fetched, own) {
            Ok(after) => queue_sound(after),
            Err(_) => true,
        },
{
    lemma_stores(journal);
    assert(journal.uploads.contains_key(id) ==> journal.uploads[id].id == id);
    if let Ok(after) = capture_recorded(
        journal,
        id,
        attempt,
        source,
        own,
        existing,
        usage,
        digest,
    ) {
        lemma_same_queue(journal, after);
    }
    if let Ok(after) = capture_finished(
        journal,
        id,
        attempt,
        digest,
        stream,
        version,
        fetched,
        own,
    ) {
        let preparation = journal.preparations[id];
        if journal.objects[preparation.source].working_file is None {
            let state = stream_published_for(
                journal,
                stream,
                version,
                preparation.source,
                preparation.scope,
                preparation.remote->0,
                fetched->0,
                own,
            )->Ok_0.0;
            lemma_same_queue(journal, state);
            lemma_stores(state);
        }
    }
}

/// Claiming the next preparation keeps the queue sound.
pub proof fn preparation_claims_keep_the_queue_sound(
    journal: JournalView,
    now: u64,
    attempt: Id,
    result: Result<
        Option<(UploadRecord, crate::journal::records::UploadPreparation)>,
        JournalError,
    >,
    after: JournalView,
)
    requires
        queue_sound(journal),
        next_prepared(journal, now, attempt, result, after),
    ensures
        queue_sound(after),
{
    lemma_stores(journal);
    if exists|id: Id| next_preparation(journal, now, id) {
        let id = choose|id: Id| #[trigger]
            next_preparation(journal, now, id) && preparation_claimed(
                journal,
                attempt,
                id,
                result,
                after,
            );
        assert(journal.uploads.contains_key(id));
        if after != journal && after.queue == journal.queue && after.uploads
            == journal.uploads.insert(id, after.uploads[id]) && after.uploads[id].state
            == journal.uploads[id].state {
            lemma_upload_kept(journal, id, after.uploads[id], after);
        }
    }
}

/// A restart keeps the queue sound: interrupted attempts are never taken for finished
/// ones.
pub proof fn restarts_keep_the_queue_sound(journal: JournalView, rows: Seq<(u64, Id)>, id: Id)
    requires
        queue_sound(journal),
    ensures
        queue_sound(attempts_recovered(journal)),
        queue_sound(gates_closed(journal)),
        queue_sound(readers_released_all(journal, rows).0),
        queue_sound(replacements_released_all(journal, rows).0),
        match replacement_released(journal, id) {
            Ok(after) => queue_sound(after),
            Err(_) => true,
        },
    decreases rows.len(),
{
    let recovered = attempts_recovered(journal);
    assert(queue_sound(recovered)) by {
        assert forall|from: Id, to: Id| #[trigger]
            edge(recovered, from, to) && recovered.queue.contains_key(from)
                && recovered.queue.contains_key(to) implies recovered.queue[to].sequence
            < recovered.queue[from].sequence by {
            assert(edge(journal, from, to));
        }
        assert forall|k: Id| #[trigger]
            recovered.uploads.contains_key(k) implies recovered.uploads[k].id == k
            && !recovered.mutations.contains_key(k) && recovered.queue.contains_key(k)
            && recovered.queue[k].complete == (recovered.uploads[k].state == UploadState::Uploaded)
            && recovered.uploads[k].sequence == recovered.queue[k].sequence by {
            assert(journal.uploads.contains_key(k));
        }
        assert forall|k: Id| #[trigger]
            recovered.mutations.contains_key(k) implies recovered.mutations[k].id == k
            && recovered.queue.contains_key(k) && recovered.queue[k].complete == (
        recovered.mutations[k].state == MutationState::Applied) && recovered.mutations[k].sequence
            == recovered.queue[k].sequence by {
            assert(journal.mutations.contains_key(k));
        }
    }
    lemma_same_queue(journal, gates_closed(journal));
    if let Ok(after) = replacement_released(journal, id) {
        lemma_same_queue(journal, after);
    }
    lemma_readers(journal, rows);
    lemma_replacements(journal, rows);
}

proof fn lemma_readers(journal: JournalView, rows: Seq<(u64, Id)>)
    requires
        queue_sound(journal),
    ensures
        queue_sound(readers_released_all(journal, rows).0),
    decreases rows.len(),
{
    if rows.len() > 0 {
        let id = rows[0].1;
        lemma_stores(journal);
        assert(journal.mutations.contains_key(id) ==> journal.mutations[id].id == id);
        if let Ok(state) = readers_released(journal, id) {
            lemma_readers(state, rows.drop_first());
        }
    }
}

proof fn lemma_replacements(journal: JournalView, rows: Seq<(u64, Id)>)
    requires
        queue_sound(journal),
    ensures
        queue_sound(replacements_released_all(journal, rows).0),
    decreases rows.len(),
{
    if rows.len() > 0 {
        if let Ok(state) = replacement_released(journal, rows[0].1) {
            lemma_same_queue(journal, state);
            lemma_replacements(state, rows.drop_first());
        }
    }
}

/// Queueing an upload under a new identity keeps the queue sound.
pub proof fn new_uploads_keep_the_queue_sound(
    journal: JournalView,
    id: Id,
    predecessor: Id,
    scope: Scope,
    intent: UploadIntent,
    valid: bool,
    base: Option<WriteBase>,
    prerequisites: Seq<Id>,
    working: Option<Id>,
    stream: Id,
    usage: Usage,
    sealed: Sealed,
)
    requires
        queue_sound(journal),
        unnamed(journal, id),
    ensures
        match generation_enqueued(
            journal,
            id,
            scope,
            intent,
            valid,
            base,
            prerequisites,
            working,
            usage,
            sealed,
        ) {
            Ok((after, _)) => queue_sound(after),
            Err(_) => true,
        },
        match following(
            journal,
            id,
            predecessor,
            prerequisites,
            scope,
            intent,
            valid,
            usage,
            sealed,
        ) {
            Ok((after, _)) => queue_sound(after),
            Err(_) => true,
        },
        match stream_sealed(journal, id, stream, intent, valid, usage, sealed) {
            Ok((after, _)) => queue_sound(after),
            Err(_) => true,
        },
{
    lemma_new_uploads(journal);
    lemma_sealed(journal, id, stream, intent, valid, usage, sealed);
}

proof fn lemma_new_uploads(journal: JournalView)
    requires
        queue_sound(journal),
    ensures
        forall|record: UploadRecord, prerequisites: Seq<Id>|
            (unnamed(journal, record.id) || journal.queue.contains_key(record.id)) && record.state
                != UploadState::Uploaded ==> match #[trigger] upload_queued(
                journal,
                record,
                prerequisites,
            ) {
                Ok((after, stored)) => queue_sound(after) && stored.id == record.id
                    && forall|id: Id| #[trigger]
                    unnamed(journal, id) ==> unnamed(after, id) || after.queue.contains_key(id),
                Err(_) => true,
            },
{
    assert forall|record: UploadRecord, prerequisites: Seq<Id>|
        (unnamed(journal, record.id) || journal.queue.contains_key(record.id)) && record.state
            != UploadState::Uploaded implies (match #[trigger] upload_queued(
        journal,
        record,
        prerequisites,
    ) {
        Ok((after, stored)) => queue_sound(after) && stored.id == record.id && forall|id: Id|
         #[trigger]
            unnamed(journal, id) ==> unnamed(after, id) || after.queue.contains_key(id),
        Err(_) => true,
    }) by {
        lemma_upload_queued(journal, record, prerequisites);
    }
}

proof fn lemma_new_mutations(journal: JournalView)
    requires
        queue_sound(journal),
    ensures
        forall|record: MutationRecord, prerequisites: Seq<Id>|
            (unnamed(journal, record.id) || journal.queue.contains_key(record.id)) && record.state
                != MutationState::Applied ==> match #[trigger] mutation_queued(
                journal,
                record,
                prerequisites,
            ) {
                Ok((after, stored)) => queue_sound(after) && stored.id == record.id
                    && forall|id: Id| #[trigger]
                    unnamed(journal, id) ==> unnamed(after, id) || after.queue.contains_key(id),
                Err(_) => true,
            },
{
    assert forall|record: MutationRecord, prerequisites: Seq<Id>|
        (unnamed(journal, record.id) || journal.queue.contains_key(record.id)) && record.state
            != MutationState::Applied implies (match #[trigger] mutation_queued(
        journal,
        record,
        prerequisites,
    ) {
        Ok((after, stored)) => queue_sound(after) && stored.id == record.id && forall|id: Id|
         #[trigger]
            unnamed(journal, id) ==> unnamed(after, id) || after.queue.contains_key(id),
        Err(_) => true,
    }) by {
        lemma_mutation_queued(journal, record, prerequisites);
    }
}

/// Queueing a namespace change under a new identity keeps the queue sound.
pub proof fn new_changes_keep_the_queue_sound(
    journal: JournalView,
    id: Id,
    request: MutationRequest,
    base: Option<WriteBase>,
    predecessor: Id,
    prerequisites: Seq<Id>,
    working: Option<Id>,
    valid: bool,
)
    requires
        queue_sound(journal),
        unnamed(journal, id),
    ensures
        match mutation_enqueued(journal, id, request, base, prerequisites, working) {
            Ok((after, _)) => queue_sound(after),
            Err(_) => true,
        },
        match request_enqueued(journal, id, request, valid) {
            Ok((after, _)) => queue_sound(after),
            Err(_) => true,
        },
        match request_following(journal, id, predecessor, prerequisites, request, valid) {
            Ok((after, _)) => queue_sound(after),
            Err(_) => true,
        },
{
    lemma_new_mutations(journal);
}

/// Storing objects behind a queued operation keeps the queue sound.
proof fn lemma_creation(
    journal: JournalView,
    operation: Id,
    id: Id,
    identity: String,
    now: u64,
    scope: Scope,
    parent: String,
    name: String,
    valid: bool,
)
    requires
        queue_sound(journal),
        unnamed(journal, operation),
    ensures
        match directory_created(journal, id, operation, identity, now, scope, parent, name, valid) {
            Ok((after, _)) => queue_sound(after),
            Err(_) => true,
        },
{
    if let Ok((after, _)) = directory_created(
        journal,
        id,
        operation,
        identity,
        now,
        scope,
        parent,
        name,
        valid,
    ) {
        let request = MutationRequest {
            scope,
            intent: MutationIntent::CreateFolder { parent, name },
        };
        let record = new_mutation(operation, request, None, None, true);
        lemma_mutation_queued(journal, record, Seq::empty());
        let queued = mutation_queued(journal, record, Seq::empty())->Ok_0.0;
        lemma_same_queue(queued, after);
    }
}

proof fn lemma_removal(
    journal: JournalView,
    operation: Id,
    id: Id,
    revision: u64,
    preserve: bool,
    valid: bool,
)
    requires
        queue_sound(journal),
        unnamed(journal, operation),
    ensures
        match directory_removed(journal, operation, id, revision, valid) {
            Ok((after, _)) => queue_sound(after),
            Err(_) => true,
        },
        match file_unlinked(journal, operation, id, revision, preserve, valid) {
            Ok((after, _)) => queue_sound(after),
            Err(_) => true,
        },
{
    if let Ok((after, _)) = directory_removed(journal, operation, id, revision, valid) {
        let (object, request) = removal_plan(journal, id, revision)->Ok_0;
        let base = based(journal, object.latest, request, valid)->Ok_0;
        let record = new_mutation(operation, request, base, None, true);
        lemma_mutation_queued(journal, record, Seq::empty());
        let queued = mutation_queued(journal, record, Seq::empty())->Ok_0.0;
        lemma_same_queue(queued, after);
    }
    if let Ok((after, _)) = file_unlinked(journal, operation, id, revision, preserve, valid) {
        let plan = unlink_plan(journal, id, revision)->Ok_0;
        let base = based(journal, plan.object.latest, plan.request, valid)->Ok_0;
        let record = new_mutation(
            operation,
            plan.request,
            base,
            plan.object.working_file,
            !preserve,
        );
        lemma_mutation_queued(journal, record, Seq::empty());
        let queued = mutation_queued(journal, record, Seq::empty())->Ok_0.0;
        lemma_same_queue(queued, after);
    }
}

proof fn lemma_stream_moved(
    journal: JournalView,
    operation: Id,
    id: Id,
    parent: String,
    name: String,
    named: bool,
    valid: bool,
)
    requires
        queue_sound(journal),
        unnamed(journal, operation) || journal.queue.contains_key(operation),
    ensures
        match stream_relocated(journal, operation, id, parent, name, named, valid) {
            Ok((after, _)) => queue_sound(after),
            Err(_) => true,
        },
{
    if let Ok((after, _)) = stream_relocated(journal, operation, id, parent, name, named, valid) {
        let file = journal.working[id];
        let request = stream_request(file, parent, name);
        let base = based(journal, file.latest, request, valid)->Ok_0;
        let record = new_mutation(operation, request, base, Some(id), true);
        lemma_mutation_queued(journal, record, Seq::empty());
        let queued = mutation_queued(journal, record, Seq::empty())->Ok_0.0;
        lemma_same_queue(queued, after);
    }
}

proof fn lemma_file_moved(
    journal: JournalView,
    operation: Id,
    id: Id,
    parent: String,
    name: String,
    valid: bool,
)
    requires
        queue_sound(journal),
        unnamed(journal, operation),
    ensures
        match file_relocated(journal, operation, id, parent, name, valid) {
            Ok((after, _)) => queue_sound(after),
            Err(_) => true,
        },
{
    if let Ok((after, _)) = file_relocated(journal, operation, id, parent, name, valid) {
        let object = journal.objects[id];
        let request = object_request(object, parent, name)->Ok_0;
        let base = based(journal, object.latest, request, valid)->Ok_0;
        let record = new_mutation(operation, request, base, None, true);
        lemma_mutation_queued(journal, record, Seq::empty());
        let queued = mutation_queued(journal, record, Seq::empty())->Ok_0.0;
        lemma_same_queue(queued, after);
    }
}

proof fn lemma_sealed(
    journal: JournalView,
    upload: Id,
    id: Id,
    intent: UploadIntent,
    valid: bool,
    usage: Usage,
    sealed: Sealed,
)
    requires
        queue_sound(journal),
        unnamed(journal, upload),
    ensures
        match stream_sealed(journal, upload, id, intent, valid, usage, sealed) {
            Ok((after, _)) => queue_sound(after) && forall|other: Id| #[trigger]
                unnamed(journal, other) ==> unnamed(after, other) || after.queue.contains_key(
                    other,
                ),
            Err(_) => true,
        },
{
    lemma_new_uploads(journal);
    if let Ok((after, _)) = stream_sealed(journal, upload, id, intent, valid, usage, sealed) {
        let file = journal.working[id];
        let last = match file.latest {
            Some(predecessor) => Some(WriteBase { predecessor, resolved: false }),
            None => None,
        };
        let queued = generation_enqueued(
            journal,
            upload,
            file.scope,
            intent,
            valid,
            last,
            Seq::empty(),
            Some(id),
            usage,
            sealed,
        )->Ok_0.0;
        lemma_same_queue(queued, after);
        assert forall|other: Id| #[trigger] unnamed(journal, other) implies unnamed(after, other)
            || after.queue.contains_key(other) by {
            assert(unnamed(queued, other) || queued.queue.contains_key(other));
        }
    }
}

/// Moving a file keeps the queue sound, where its operations have new identities: with a
/// stream or without one, and also where unsaved bytes are saved first.
pub proof fn moves_keep_the_queue_sound(
    journal: JournalView,
    upload: Id,
    operation: Id,
    id: Id,
    revision: u64,
    parent: String,
    name: String,
    named: bool,
    savable: bool,
    usage: Usage,
    sealed: Sealed,
    valid: bool,
    result: Result<MutationRecord, JournalError>,
    after: JournalView,
)
    requires
        queue_sound(journal),
        unnamed(journal, upload),
        unnamed(journal, operation),
        relocating_file(
            journal,
            upload,
            operation,
            id,
            revision,
            parent,
            name,
            named,
            savable,
            usage,
            sealed,
            valid,
            result,
            after,
        ) || relocating(
            journal,
            upload,
            operation,
            id,
            parent,
            name,
            named,
            savable,
            usage,
            sealed,
            valid,
            result,
            after,
        ),
    ensures
        queue_sound(after),
{
    let stream = if relocating(
        journal,
        upload,
        operation,
        id,
        parent,
        name,
        named,
        savable,
        usage,
        sealed,
        valid,
        result,
        after,
    ) {
        Some(id)
    } else if relocation_refusal(journal, id, revision) is None {
        journal.objects[id].working_file
    } else {
        None
    };
    lemma_file_moved(journal, operation, id, parent, name, valid);
    if let Some(stream) = stream {
        lemma_stream_moved(journal, operation, stream, parent, name, named, valid);
        if named && journal.working.contains_key(stream) && journal.working[stream].node.id@
            != parent@ && journal.working[stream].dirty {
            let (saved, middle) = choose|
                saved: Result<Option<UploadRecord>, JournalError>,
                middle: JournalView,
            | #[trigger]
                sealing(journal, upload, stream, savable, usage, sealed, saved, middle)
                    && match saved {
                    Err(error) => result == Err::<MutationRecord, JournalError>(error) && after
                        == middle,
                    Ok(_) => answered(
                        stream_relocated(middle, operation, stream, parent, name, named, valid),
                        result,
                        middle,
                        after,
                    ),
                };
            if middle != journal {
                let intent = choose|intent: UploadIntent| #[trigger]
                    seals_with(journal, journal.working[stream], intent) && answered(
                        stream_sealed(journal, upload, stream, intent, savable, usage, sealed),
                        saved,
                        journal,
                        middle,
                    );
                lemma_sealed(journal, upload, stream, intent, savable, usage, sealed);
            }
            lemma_stream_moved(middle, operation, stream, parent, name, named, valid);
        }
    }
}

/// Creating and removing directories and unlinking files keep the queue sound, where the
/// operation has a new identity.
pub proof fn namespace_changes_keep_the_queue_sound(
    journal: JournalView,
    operation: Id,
    id: Id,
    identity: String,
    now: u64,
    scope: Scope,
    parent: String,
    name: String,
    revision: u64,
    preserve: bool,
    valid: bool,
)
    requires
        queue_sound(journal),
        unnamed(journal, operation),
    ensures
        match directory_created(journal, id, operation, identity, now, scope, parent, name, valid) {
            Ok((after, _)) => queue_sound(after),
            Err(_) => true,
        },
        match directory_removed(journal, operation, id, revision, valid) {
            Ok((after, _)) => queue_sound(after),
            Err(_) => true,
        },
        match file_unlinked(journal, operation, id, revision, preserve, valid) {
            Ok((after, _)) => queue_sound(after),
            Err(_) => true,
        },
{
    lemma_creation(journal, operation, id, identity, now, scope, parent, name, valid);
    lemma_removal(journal, operation, id, revision, preserve, valid);
}

proof fn lemma_takeover(
    journal: JournalView,
    plan: ReplacementPlan,
    base: Option<WriteBase>,
    preserve: bool,
    upload: UploadRecord,
    ids: ReplacementIds,
    identity: String,
)
    requires
        queue_sound(journal),
        unnamed(journal, ids.cleanup) || journal.queue.contains_key(ids.cleanup),
    ensures
        match replacement_committed(journal, plan, base, preserve, upload, ids, identity) {
            Ok((after, _)) => queue_sound(after),
            Err(_) => true,
        },
{
    if let Ok((after, _)) = replacement_committed(
        journal,
        plan,
        base,
        preserve,
        upload,
        ids,
        identity,
    ) {
        let record = new_mutation(ids.cleanup, plan.cleanup, base, None, true);
        lemma_mutation_queued(journal, record, seq![upload.id]);
        let queued = mutation_queued(journal, record, seq![upload.id])->Ok_0.0;
        lemma_same_queue(queued, after);
    }
}

/// Replacing one file by another keeps the queue sound, where its operations have new
/// identities.
pub proof fn replacements_keep_the_queue_sound(
    journal: JournalView,
    plan: ReplacementPlan,
    intent: UploadIntent,
    valid: bool,
    clean: bool,
    preserve: bool,
    usage: Usage,
    sealed: Sealed,
    empty: String,
    ids: ReplacementIds,
    identity: String,
)
    requires
        queue_sound(journal),
        unnamed(journal, ids.upload),
        unnamed(journal, ids.cleanup),
    ensures
        match stream_replaced(
            journal,
            plan,
            intent,
            valid,
            clean,
            preserve,
            usage,
            sealed,
            ids,
            identity,
        ) {
            Ok((after, _)) => queue_sound(after),
            Err(_) => true,
        },
        match source_prepared(
            journal,
            plan,
            intent,
            valid,
            clean,
            preserve,
            empty,
            ids,
            identity,
        ) {
            Ok((after, _)) => queue_sound(after),
            Err(_) => true,
        },
{
    let base = publication_base(plan.victim);
    let prerequisites = publication_prerequisites(plan.source);
    if let Ok((after, _)) = stream_replaced(
        journal,
        plan,
        intent,
        valid,
        clean,
        preserve,
        usage,
        sealed,
        ids,
        identity,
    ) {
        let cleanup = based(journal, plan.source.latest, plan.cleanup, clean)->Ok_0;
        let record = new_upload(
            ids.upload,
            plan.source.scope,
            intent,
            UploadState::Pending,
            sealed,
            base,
            plan.source.working_file,
        );
        lemma_upload_queued(journal, record, prerequisites);
        let (queued, upload) = upload_queued(journal, record, prerequisites)->Ok_0;
        lemma_takeover(queued, plan, cleanup, preserve, upload, ids, identity);
    }
    if let Ok((after, _)) = source_prepared(
        journal,
        plan,
        intent,
        valid,
        clean,
        preserve,
        empty,
        ids,
        identity,
    ) {
        let cleanup = based(journal, plan.source.latest, plan.cleanup, clean)->Ok_0;
        let record = new_upload(
            ids.upload,
            plan.source.scope,
            intent,
            UploadState::Preparing,
            Sealed { size: plan.source.node.size, sha256: empty },
            base,
            None,
        );
        lemma_upload_queued(journal, record, prerequisites);
        let (queued, upload) = upload_queued(journal, record, prerequisites)->Ok_0;
        let noted = JournalView {
            preparations: queued.preparations.insert(
                ids.upload,
                preparation_for(plan.source, ids.upload),
            ),
            ..queued
        };
        lemma_same_queue(queued, noted);
        lemma_takeover(noted, plan, cleanup, preserve, upload, ids, identity);
    }
}

proof fn lemma_adopted(journal: JournalView, files: Seq<WorkingFile>)
    ensures
        match all_attached(journal, files) {
            Ok(after) => same_queue(journal, after),
            Err(_) => true,
        },
    decreases files.len(),
{
    if files.len() > 0 {
        if let Ok((state, _)) = attached(journal, files[0]) {
            assert(same_queue(journal, state));
            lemma_adopted(state, files.drop_first());
        }
    }
}

proof fn lemma_receipts_adopted(
    journal: JournalView,
    uploads: Seq<UploadRecord>,
    mutations: Seq<MutationRecord>,
)
    ensures
        match all_uploaded(journal, uploads) {
            Ok(after) => same_queue(journal, after),
            Err(_) => true,
        },
        match all_applied(journal, mutations) {
            Ok(after) => same_queue(journal, after),
            Err(_) => true,
        },
    decreases uploads.len() + mutations.len(),
{
    assert forall|operation: Id, sequence: u64, working: Option<Id>, remote: Option<Node>|
        match #[trigger] receipt_adopted(journal, operation, sequence, working, remote) {
            Ok(state) => same_queue(journal, state),
            Err(_) => true,
        } by {
        if working is Some && remote is Some {
            receipts_leave_the_queue(
                bound_to(journal, operation, working->0),
                operation,
                sequence,
                remote->0,
            );
        }
    }
    if uploads.len() > 0 {
        let record = uploads[0];
        if let Ok(state) = receipt_adopted(
            journal,
            record.id,
            record.sequence,
            record.working_file,
            record.remote,
        ) {
            lemma_receipts_adopted(state, uploads.drop_first(), Seq::empty());
        }
    }
    if mutations.len() > 0 {
        let record = mutations[0];
        if let Ok(state) = receipt_adopted(
            journal,
            record.id,
            record.sequence,
            record.working_file,
            upserted(record.receipt),
        ) {
            lemma_receipts_adopted(state, Seq::empty(), mutations.drop_first());
        }
    }
}

/// The uploads of a journal without a queue: each has a place of its own, and nothing
/// else is queued.
pub open spec fn queueless(journal: JournalView) -> bool {
    &&& journal.queue == Map::<Id, QueueRow>::empty()
    &&& journal.mutations == Map::<Id, MutationRecord>::empty()
    &&& journal.successors == Map::<Id, Id>::empty()
    &&& journal.prerequisites == Set::<(Id, Id)>::empty()
    &&& forall|id: Id| #[trigger]
        journal.uploads.contains_key(id) ==> journal.uploads[id].id == id
            && journal.uploads[id].sequence > 0
    &&& forall|a: Id, b: Id|
        #![trigger journal.uploads[a], journal.uploads[b]]
        journal.uploads.contains_key(a) && journal.uploads.contains_key(b)
            && journal.uploads[a].sequence == journal.uploads[b].sequence ==> a == b
}

/// Every upload comes behind its base.
pub open spec fn bases_earlier(journal: JournalView) -> bool {
    forall|id: Id| #[trigger]
        journal.uploads.contains_key(id) && journal.uploads[id].base is Some ==> {
            let before = journal.uploads[id].base->0.predecessor;
            &&& journal.uploads.contains_key(before) ==> journal.uploads[before].sequence
                < journal.uploads[id].sequence
            &&& journal.queue.contains_key(before) ==> journal.queue[before].sequence
                < journal.uploads[id].sequence
        }
}

/// The records have identities and places of their own, none of them queued yet.
pub open spec fn unqueued(journal: JournalView, records: Seq<UploadRecord>) -> bool {
    &&& forall|i: int, j: int|
        0 <= i < j < records.len() ==> (#[trigger] records[i]).id != (#[trigger] records[j]).id
            && records[i].sequence != records[j].sequence
    &&& forall|i: int|
        0 <= i < records.len() ==> !journal.queue.contains_key((#[trigger] records[i]).id)
            && !place_taken(journal.queue, records[i].sequence)
}

proof fn lemma_all_queued(journal: JournalView, records: Seq<UploadRecord>)
    requires
        unqueued(journal, records),
    ensures
        ({
            let after = all_queued(journal, records);
            &&& after.uploads == journal.uploads
            &&& after.mutations == journal.mutations
            &&& after.successors == journal.successors
            &&& after.prerequisites == journal.prerequisites
            &&& after.last_sequence >= journal.last_sequence
            &&& forall|id: Id| #[trigger]
                after.queue.contains_key(id) ==> journal.queue.contains_key(id) || exists|i: int|
                    0 <= i < records.len() && (#[trigger] records[i]).id == id
            &&& forall|id: Id| #[trigger]
                journal.queue.contains_key(id) ==> after.queue.contains_key(id) && after.queue[id]
                    == journal.queue[id]
            &&& forall|i: int|
                0 <= i < records.len() ==> after.queue.contains_key((#[trigger] records[i]).id)
                    && after.queue[records[i].id] == (QueueRow {
                    sequence: records[i].sequence,
                    complete: records[i].state == UploadState::Uploaded,
                }) && records[i].sequence <= after.last_sequence
        }),
    decreases records.len(),
{
    if records.len() > 0 {
        let first = records[0];
        let rest = records.drop_first();
        let next = queued_again(journal, first);
        assert(unqueued(next, rest)) by {
            assert forall|i: int, j: int| 0 <= i < j < rest.len() implies (#[trigger] rest[i]).id
                != (#[trigger] rest[j]).id && rest[i].sequence != rest[j].sequence by {
                assert(rest[i] == records[i + 1] && rest[j] == records[j + 1]);
            }
            assert forall|i: int| 0 <= i < rest.len() implies !next.queue.contains_key(
                (#[trigger] rest[i]).id,
            ) && !place_taken(next.queue, rest[i].sequence) by {
                assert(rest[i] == records[i + 1]);
                assert(records[0].id != records[i + 1].id);
                if place_taken(next.queue, rest[i].sequence) {
                    let id = choose|id: Id| #[trigger]
                        next.queue.contains_key(id) && next.queue[id].sequence == rest[i].sequence;
                    if id != first.id {
                        assert(journal.queue.contains_key(id));
                        assert(place_taken(journal.queue, records[i + 1].sequence));
                    }
                }
            }
        }
        lemma_all_queued(next, rest);
        let after = all_queued(journal, records);
        assert(next.queue.contains_key(first.id));
        assert forall|id: Id| #[trigger] after.queue.contains_key(id) implies journal.queue.contains_key(
            id,
        ) || exists|i: int| 0 <= i < records.len() && (#[trigger] records[i]).id == id by {
            if !next.queue.contains_key(id) {
                let i = choose|i: int| 0 <= i < rest.len() && (#[trigger] rest[i]).id == id;
                assert(records[i + 1].id == id);
            } else if id == first.id {
                assert(records[0].id == id);
            }
        }
        assert forall|id: Id| #[trigger] journal.queue.contains_key(id) implies after.queue.contains_key(
            id,
        ) && after.queue[id] == journal.queue[id] by {
            assert(next.queue.contains_key(id));
        }
        assert forall|i: int| 0 <= i < records.len() implies after.queue.contains_key(
            (#[trigger] records[i]).id,
        ) && after.queue[records[i].id] == (QueueRow {
            sequence: records[i].sequence,
            complete: records[i].state == UploadState::Uploaded,
        }) && records[i].sequence <= after.last_sequence by {
            if i > 0 {
                assert(rest[i - 1] == records[i]);
            }
        }
    }
}

/// The uploads in the order of their places are all uploads, each one once.
proof fn lemma_in_order(journal: JournalView, rows: Seq<(u64, Id)>)
    requires
        listing(journal.uploads, |id: Id, record: UploadRecord| true, rows),
    ensures
        uploads_in_order(journal).len() == rows.len(),
        forall|i: int|
            0 <= i < rows.len() ==> journal.uploads.contains_key((#[trigger] rows[i]).1)
                && uploads_in_order(journal)[i] == journal.uploads[rows[i].1],
        forall|id: Id| #[trigger]
            journal.uploads.contains_key(id) ==> exists|i: int|
                0 <= i < rows.len() && (#[trigger] rows[i]).1 == id,
        forall|i: int, j: int|
            0 <= i < j < rows.len() ==> (#[trigger] rows[i]).1 != (#[trigger] rows[j]).1,
{
    let wanted = |id: Id, record: UploadRecord| true;
    lemma_listed(journal.uploads, wanted, rows);
    assert forall|i: int| 0 <= i < rows.len() implies journal.uploads.contains_key(
        (#[trigger] rows[i]).1,
    ) by {
        assert(rows.contains(rows[i]));
        assert(chosen(journal.uploads, wanted, rows[i]));
    }
    assert forall|id: Id| #[trigger] journal.uploads.contains_key(id) implies exists|i: int|
        0 <= i < rows.len() && (#[trigger] rows[i]).1 == id by {
        let row = (journal.uploads[id].place(), id);
        assert(chosen(journal.uploads, wanted, row));
        assert(rows.contains(row));
        let i = choose|i: int| 0 <= i < rows.len() && rows[i] == row;
        assert(rows[i].1 == id);
    }
    assert forall|i: int, j: int| 0 <= i < j < rows.len() implies (#[trigger] rows[i]).1 != (
    #[trigger] rows[j]).1 by {
        assert(rows.contains(rows[i]) && rows.contains(rows[j]));
        assert(chosen(journal.uploads, wanted, rows[i]));
        assert(chosen(journal.uploads, wanted, rows[j]));
        assert(earlier(rows[i], rows[j]));
    }
}

/// A journal without a queue gets a sound one.
proof fn lemma_queue_adopted(journal: JournalView, rows: Seq<(u64, Id)>)
    requires
        queueless(journal),
        listing(journal.uploads, |id: Id, record: UploadRecord| true, rows),
    ensures
        queue_sound(all_queued(journal, uploads_in_order(journal))),
        all_queued(journal, uploads_in_order(journal)).uploads == journal.uploads,
        forall|id: Id| #[trigger]
            all_queued(journal, uploads_in_order(journal)).queue.contains_key(id)
                ==> journal.uploads.contains_key(id),
{
    let records = uploads_in_order(journal);
    let after = all_queued(journal, records);
    lemma_in_order(journal, rows);
    assert(unqueued(journal, records)) by {
        assert forall|i: int, j: int| 0 <= i < j < records.len() implies (#[trigger] records[i]).id
            != (#[trigger] records[j]).id && records[i].sequence != records[j].sequence by {
            assert(rows[i].1 != rows[j].1);
            assert(journal.uploads.contains_key(rows[i].1));
            assert(journal.uploads.contains_key(rows[j].1));
        }
        assert forall|i: int| 0 <= i < records.len() implies !journal.queue.contains_key(
            (#[trigger] records[i]).id,
        ) && !place_taken(journal.queue, records[i].sequence) by {}
    }
    lemma_all_queued(journal, records);
    assert forall|id: Id| #[trigger] after.queue.contains_key(id) implies after.uploads.contains_key(
        id,
    ) && 0 < after.queue[id].sequence && after.queue[id].sequence <= after.last_sequence by {
        let i = choose|i: int| 0 <= i < records.len() && (#[trigger] records[i]).id == id;
        assert(journal.uploads.contains_key(rows[i].1));
        assert(records[i] == journal.uploads[rows[i].1]);
    }
    assert forall|id: Id| #[trigger] after.uploads.contains_key(id) implies after.uploads[id].id
        == id && !after.mutations.contains_key(id) && after.queue.contains_key(id)
        && after.queue[id].complete == (after.uploads[id].state == UploadState::Uploaded)
        && after.uploads[id].sequence == after.queue[id].sequence by {
        let i = choose|i: int| 0 <= i < rows.len() && (#[trigger] rows[i]).1 == id;
        assert(records[i] == journal.uploads[id]);
    }
    assert forall|from: Id, to: Id| !(#[trigger] edge(after, from, to)) by {}
}

proof fn lemma_successors_adopted(journal: JournalView, records: Seq<UploadRecord>)
    requires
        queue_sound(journal),
        bases_earlier(journal),
        forall|i: int|
            0 <= i < records.len() ==> journal.uploads.contains_key((#[trigger] records[i]).id)
                && journal.uploads[records[i].id] == records[i],
    ensures
        queue_sound(all_succeeded(journal, records)),
    decreases records.len(),
{
    if records.len() > 0 {
        let first = records[0];
        let rest = records.drop_first();
        let next = succeeded(journal, first);
        assert(journal.uploads.contains_key(first.id));
        assert forall|from: Id, to: Id| #[trigger]
            edge(next, from, to) && next.queue.contains_key(from) && next.queue.contains_key(
                to,
            ) implies next.queue[to].sequence < next.queue[from].sequence by {
            if !edge(journal, from, to) {
                assert(from == first.id && to == first.base->0.predecessor);
            }
        }
        assert(queue_sound(next)) by {
            assert forall|id: Id| #[trigger] next.uploads.contains_key(id) implies next.uploads[id].id
                == id && !next.mutations.contains_key(id) && next.queue.contains_key(id)
                && next.queue[id].complete == (next.uploads[id].state == UploadState::Uploaded)
                && next.uploads[id].sequence == next.queue[id].sequence by {
                assert(journal.uploads.contains_key(id));
            }
            assert forall|id: Id| #[trigger]
                next.mutations.contains_key(id) implies next.mutations[id].id == id
                && next.queue.contains_key(id) && next.queue[id].complete == (
            next.mutations[id].state == MutationState::Applied) && next.mutations[id].sequence
                == next.queue[id].sequence by {
                assert(journal.mutations.contains_key(id));
            }
        }
        assert(bases_earlier(next)) by {
            assert forall|id: Id| #[trigger]
                next.uploads.contains_key(id) && next.uploads[id].base is Some implies ({
                let before = next.uploads[id].base->0.predecessor;
                &&& next.uploads.contains_key(before) ==> next.uploads[before].sequence
                    < next.uploads[id].sequence
                &&& next.queue.contains_key(before) ==> next.queue[before].sequence
                    < next.uploads[id].sequence
            }) by {
                assert(journal.uploads.contains_key(id));
            }
        }
        assert forall|i: int| 0 <= i < rest.len() implies next.uploads.contains_key(
            (#[trigger] rest[i]).id,
        ) && next.uploads[rest[i].id] == rest[i] by {
            assert(rest[i] == records[i + 1]);
        }
        lemma_successors_adopted(next, rest);
    }
}

/// What a journal of an earlier layout has to hold: before there was a queue, uploads
/// with places of their own; before successors were kept, a sound queue; and always
/// bases before what follows them.
pub open spec fn upgradable(journal: JournalView, version: u32) -> bool {
    if version < QUEUE_VERSION {
        queueless(journal) && bases_earlier(journal)
    } else if version < SUCCESSOR_VERSION {
        queue_sound(journal) && bases_earlier(journal)
    } else {
        queue_sound(journal)
    }
}

/// Upgrading a journal leaves it with a sound queue: one that it had is kept, and one
/// that it lacked is made from its uploads.
pub proof fn upgrades_leave_a_sound_queue(
    journal: JournalView,
    version: u32,
    rows: Seq<(u64, Id)>,
)
    requires
        upgradable(journal, version),
        listing(journal.uploads, |id: Id, record: UploadRecord| true, rows),
    ensures
        match upgraded(journal, version) {
            Ok(after) => queue_sound(after),
            Err(_) => true,
        },
{
    let queued = if version < QUEUE_VERSION {
        all_queued(journal, uploads_in_order(journal))
    } else {
        journal
    };
    if version < QUEUE_VERSION {
        lemma_queue_adopted(journal, rows);
        assert(bases_earlier(queued)) by {
            assert forall|id: Id| #[trigger]
                queued.uploads.contains_key(id) && queued.uploads[id].base is Some implies ({
                let before = queued.uploads[id].base->0.predecessor;
                &&& queued.uploads.contains_key(before) ==> queued.uploads[before].sequence
                    < queued.uploads[id].sequence
                &&& queued.queue.contains_key(before) ==> queued.queue[before].sequence
                    < queued.uploads[id].sequence
            }) by {
                assert(journal.uploads.contains_key(id));
                let before = queued.uploads[id].base->0.predecessor;
                if queued.queue.contains_key(before) {
                    assert(queued.uploads.contains_key(before));
                }
            }
        }
    }
    let linked = if version < SUCCESSOR_VERSION {
        all_succeeded(queued, uploads_in_order(queued))
    } else {
        queued
    };
    if version < SUCCESSOR_VERSION {
        lemma_in_order(queued, rows);
        let records = uploads_in_order(queued);
        assert forall|i: int| 0 <= i < records.len() implies queued.uploads.contains_key(
            (#[trigger] records[i]).id,
        ) && queued.uploads[records[i].id] == records[i] by {
            assert(queued.uploads.contains_key(rows[i].1));
        }
        lemma_successors_adopted(queued, records);
    }
    if let Ok(after) = upgraded(journal, version) {
        if version < NAMESPACE_VERSION {
            let first = all_attached(linked, streams_in_order(linked))->Ok_0;
            lemma_adopted(linked, streams_in_order(linked));
            let second = all_uploaded(first, uploaded_in_order(linked))->Ok_0;
            lemma_receipts_adopted(first, uploaded_in_order(linked), Seq::empty());
            lemma_receipts_adopted(second, Seq::empty(), applied_in_order(linked));
            assert(same_queue(linked, second));
        }
        lemma_same_queue(linked, after);
    }
}

} // verus!
