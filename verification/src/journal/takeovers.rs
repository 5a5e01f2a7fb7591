//! What the takeover of a name promises: the new file has the name at once, the old one
//! lives on for its readers, and its provider item is replaced before the source's own
//! item goes.
use crate::journal::chains::{
    changes_are_queued_as_given, provider_gave, uploads_are_queued_as_given,
};
use crate::journal::entries::{behind_latest, source_of};
use crate::journal::laws::{an_upload_is_stored_as_given, flags_agree};
use crate::journal::mutations::new_mutation;
use crate::journal::preparation::{
    capture_finished, capture_recorded, capturable, next_preparation, preparation_claimed,
    preparation_deferred, preparation_held,
};
use crate::journal::records::{
    JournalError, JournalView, MutationState, NamespaceObject, ReplacementRecord, UploadPreparation,
    UploadRecord, UploadState,
};
use crate::journal::recovery::gates_closed;
use crate::journal::replacements::{
    planned_replacement, publishes_over, replacement_released, source_prepared, stream_replaced,
    ReplacementIds, ReplacementPlan,
};
use crate::journal::sealing::{Sealed, Usage, WorkingSource};
use crate::journal::uploads::{new_upload, next_upload};
use crate::model::{Id, MutationIntent, MutationRequest, NodeKind, UploadIntent};
use vstd::prelude::*;

verus! {

/// Both sides of a takeover as the caller saw them: two plain files of one scope, each with
/// a name, a provider item of its own, and nothing unsaved.
pub open spec fn sides_of(
    journal: JournalView,
    plan: ReplacementPlan,
    source: Id,
    source_revision: u64,
    victim: Id,
    victim_revision: u64,
) -> bool {
    &&& journal.objects.contains_key(source) && journal.objects.contains_key(victim)
    &&& plan.source == journal.objects[source] && plan.victim == journal.objects[victim]
    &&& plan.source.id != plan.victim.id
    &&& plan.source.revision == source_revision && plan.victim.revision == victim_revision
    &&& plan.source.scope@ == plan.victim.scope@
    &&& plan.source.scope.account@ == journal.account
    &&& !plan.source.unlinked && !plan.victim.unlinked
    &&& !plan.source.follows_remote && !plan.victim.follows_remote
    &&& plan.source.remote_owned && plan.victim.remote_owned
    &&& plan.source.node.kind == NodeKind::File && plan.victim.node.kind == NodeKind::File
    &&& plan.source.latest is Some || plan.source.remote is Some
    &&& plan.victim.latest is Some || (plan.victim.remote is Some && plan.victim.remote->0.etag
        is Some)
    &&& plan.source.working_file is None ==> plan.source_working is None
    &&& plan.source.working_file is Some ==> plan.source_working == Some(
        journal.working[plan.source.working_file->0],
    ) && !plan.source_working->0.dirty
    &&& plan.victim.working_file is None ==> plan.victim_working is None
    &&& plan.victim.working_file is Some ==> plan.victim_working == Some(
        journal.working[plan.victim.working_file->0],
    ) && !plan.victim_working->0.dirty
    &&& plan.cleanup == (MutationRequest {
        scope: plan.source.scope,
        intent: MutationIntent::RemoveFile { before: source_of(plan.source) },
    })
}

/// A takeover is planned from the two files that the caller saw, and only from such.
pub proof fn takeovers_need_the_files_that_were_seen(
    journal: JournalView,
    source: Id,
    source_revision: u64,
    victim: Id,
    victim_revision: u64,
    fetched: bool,
)
    ensures
        planned_replacement(
            journal,
            source,
            source_revision,
            victim,
            victim_revision,
            fetched,
        ) matches Ok(plan) ==> sides_of(
            journal,
            plan,
            source,
            source_revision,
            victim,
            victim_revision,
        ) && (fetched ==> plan.source.working_file is Some),
{
}

/// Without an operation in between, the bytes are published over the victim's own provider
/// item and under its tag.
pub proof fn takeovers_publish_over_the_victim(
    journal: JournalView,
    victim: NamespaceObject,
    intent: UploadIntent,
)
    requires
        publishes_over(journal, victim, intent),
    ensures
        victim.latest is None ==> intent == (UploadIntent::Replace {
            item: victim.remote->0.id,
            expected_etag: victim.remote->0.etag->0,
        }),
        victim.latest matches Some(latest) ==> {
            ||| journal.uploads.contains_key(latest) && intent == journal.uploads[latest].intent
            ||| !journal.uploads.contains_key(latest) && journal.mutations.contains_key(latest)
                && journal.mutations[latest].request.intent is Relocate && intent is Replace
                && intent->item == journal.mutations[latest].request.intent->Relocate_before.id
        },
{
}

/// The takeover is done locally: the source has the victim's name and place under its own
/// identity, the victim has lost its name, and the source's old provider item is kept for
/// the cleanup.
pub open spec fn taken_locally(
    journal: JournalView,
    after: JournalView,
    plan: ReplacementPlan,
    record: ReplacementRecord,
    preserve: bool,
    ids: ReplacementIds,
) -> bool {
    let source = after.objects[plan.source.id];
    let victim = after.objects[plan.victim.id];
    let cleanup = after.objects[ids.object];
    &&& record == (ReplacementRecord {
        id: ids.upload,
        source: plan.source.id,
        victim: plan.victim.id,
        cleanup: ids.cleanup,
        cleanup_object: ids.object,
        local_ready: !preserve,
        remote_applied: false,
    })
    &&& after.replacements == journal.replacements.insert(ids.upload, record)
    &&& source.node.name == plan.victim.node.name && source.node.parent_id
        == plan.victim.node.parent_id && source.node.id == (match plan.source_working {
        Some(file) => file.node.id,
        None => plan.source.node.id,
    })
    &&& source.latest == Some(ids.upload) && !source.unlinked && source.remote
        == plan.source.remote && source.remote_owned && source.working_file
        == plan.source.working_file
    &&& victim == (NamespaceObject {
        unlinked: true,
        revision: (plan.victim.revision + 1) as u64,
        ..plan.victim
    })
    &&& cleanup.unlinked && !cleanup.remote_owned && cleanup.latest == Some(ids.cleanup)
        && cleanup.working_file is None
    &&& after.mutations.contains_key(ids.cleanup)
    &&& after.mutations[ids.cleanup].request == plan.cleanup
    &&& after.mutations[ids.cleanup].base == behind_latest(plan.source)
    &&& after.mutations[ids.cleanup].state == MutationState::Pending
    // The source's own item goes only after the publication.
    &&& after.prerequisites.contains((ids.cleanup, ids.upload))
    &&& plan.source.latest is Some ==> after.prerequisites.contains(
        (ids.upload, plan.source.latest->0),
    )
    &&& forall|other: Id| #[trigger]
        journal.objects.contains_key(other) && other != plan.source.id && other != plan.victim.id
            && other != ids.object ==> after.objects.contains_key(other) && after.objects[other]
            == journal.objects[other]
}

/// A takeover with local bytes shows the new file at once and queues the publication of
/// its sealed bytes, conditional on what is at the victim's place, before the removal of
/// the source's own item. It waits for the victim's readers exactly where there are any.
pub proof fn takeovers_with_local_bytes(
    journal: JournalView,
    plan: ReplacementPlan,
    intent: UploadIntent,
    valid: bool,
    clean: bool,
    preserve: bool,
    usage: Usage,
    sealed: Sealed,
    ids: ReplacementIds,
    identity: String,
    now: u64,
    source: Id,
    victim: Id,
)
    requires
        sides_of(journal, plan, source, plan.source.revision, victim, plan.victim.revision),
        plan.source.id == source && plan.victim.id == victim,
        ids.object != source && ids.object != victim,
        plan.source_working is Some ==> plan.source_working->0.id == plan.source.working_file->0,
        plan.victim_working is Some ==> plan.victim_working->0.id == plan.victim.working_file->0,
        plan.source.working_file is Some ==> plan.source.working_file != plan.victim.working_file,
        stream_replaced(
            journal,
            plan,
            intent,
            valid,
            clean,
            preserve,
            usage,
            sealed,
            ids,
            identity,
        ) is Ok,
    ensures
        ({
            let (after, record) = stream_replaced(
                journal,
                plan,
                intent,
                valid,
                clean,
                preserve,
                usage,
                sealed,
                ids,
                identity,
            )->Ok_0;
            &&& taken_locally(journal, after, plan, record, preserve, ids)
            &&& plan.source_working is Some
            &&& after.objects[ids.object].node.id == identity
            &&& after.uploads.contains_key(ids.upload)
            &&& after.uploads == journal.uploads.insert(ids.upload, after.uploads[ids.upload])
            &&& after.uploads[ids.upload].intent == intent
            &&& after.uploads[ids.upload].state == UploadState::Pending
            &&& after.uploads[ids.upload].size == sealed.size
            &&& after.uploads[ids.upload].sha256 == sealed.sha256
            &&& after.uploads[ids.upload].base == behind_latest(plan.victim)
            &&& sealed.size == plan.source_working->0.node.size
            &&& preserve ==> !next_upload(after, now, UploadState::Pending, ids.upload)
            &&& plan.victim.working_file is Some
                ==> after.working[plan.victim.working_file->0].unlinked
            &&& after.working[plan.source.working_file->0].node.name == plan.victim.node.name
            &&& after.working[plan.source.working_file->0].latest == Some(ids.upload)
            &&& !after.working[plan.source.working_file->0].unlinked
                == !plan.source_working->0.unlinked
        }),
{
    let prerequisites = crate::journal::replacements::publication_prerequisites(plan.source);
    let raw = new_upload(
        ids.upload,
        plan.source.scope,
        intent,
        UploadState::Pending,
        sealed,
        behind_latest(plan.victim),
        plan.source.working_file,
    );
    uploads_are_queued_as_given(journal, raw, prerequisites);
    let (queued, upload) = crate::journal::uploads::upload_queued(journal, raw, prerequisites)->Ok_0;
    changes_are_queued_as_given(
        queued,
        new_mutation(ids.cleanup, plan.cleanup, behind_latest(plan.source), None, true),
        seq![upload.id],
    );
    assert(seq![upload.id].contains(upload.id)) by {
        assert(seq![upload.id][0] == upload.id);
    }
    if plan.source.latest is Some {
        assert(prerequisites[0] == plan.source.latest->0);
        assert(prerequisites.contains(plan.source.latest->0));
    }
}

/// A takeover without local bytes shows the new file at once as well. Its publication is
/// queued as still being captured, with what has to be fetched: the version of the source
/// that the provider has.
pub proof fn takeovers_without_local_bytes(
    journal: JournalView,
    plan: ReplacementPlan,
    intent: UploadIntent,
    valid: bool,
    clean: bool,
    preserve: bool,
    empty: String,
    ids: ReplacementIds,
    identity: String,
    now: u64,
    source: Id,
    victim: Id,
)
    requires
        sides_of(journal, plan, source, plan.source.revision, victim, plan.victim.revision),
        plan.source.id == source && plan.victim.id == victim,
        ids.object != source && ids.object != victim,
        plan.victim_working is Some ==> plan.victim_working->0.id == plan.victim.working_file->0,
        source_prepared(
            journal,
            plan,
            intent,
            valid,
            clean,
            preserve,
            empty,
            ids,
            identity,
        ) is Ok,
    ensures
        ({
            let (after, record) = source_prepared(
                journal,
                plan,
                intent,
                valid,
                clean,
                preserve,
                empty,
                ids,
                identity,
            )->Ok_0;
            let upload = after.uploads[ids.upload];
            &&& taken_locally(journal, after, plan, record, preserve, ids)
            &&& plan.source.working_file is None
            &&& after.uploads.contains_key(ids.upload)
            &&& upload.state == UploadState::Preparing && upload.intent == intent
            &&& upload.size == plan.source.node.size && upload.sha256 == empty
            &&& upload.base == behind_latest(plan.victim)
            &&& !next_upload(after, now, UploadState::Pending, ids.upload)
            &&& after.preparations.contains_key(ids.upload)
            &&& after.preparations[ids.upload].operation == ids.upload
            &&& after.preparations[ids.upload].source == source
            &&& after.preparations[ids.upload].scope == plan.source.scope
            &&& plan.source.latest is None ==> after.preparations[ids.upload].remote
                == plan.source.remote
            &&& plan.source.latest is Some ==> after.preparations[ids.upload].remote is None
                && after.preparations[ids.upload].source_base == plan.source.latest
            &&& after.preparations[ids.upload].sha256 is None
        }),
{
    let prerequisites = crate::journal::replacements::publication_prerequisites(plan.source);
    let raw = new_upload(
        ids.upload,
        plan.source.scope,
        intent,
        UploadState::Preparing,
        Sealed { size: plan.source.node.size, sha256: empty },
        behind_latest(plan.victim),
        None,
    );
    uploads_are_queued_as_given(journal, raw, prerequisites);
    let (queued, upload) = crate::journal::uploads::upload_queued(journal, raw, prerequisites)->Ok_0;
    let prepared = JournalView {
        preparations: queued.preparations.insert(
            ids.upload,
            crate::journal::replacements::preparation_for(plan.source, ids.upload),
        ),
        ..queued
    };
    changes_are_queued_as_given(
        prepared,
        new_mutation(ids.cleanup, plan.cleanup, behind_latest(plan.source), None, true),
        seq![upload.id],
    );
    assert(seq![upload.id].contains(upload.id)) by {
        assert(seq![upload.id][0] == upload.id);
    }
    if plan.source.latest is Some {
        assert(prerequisites[0] == plan.source.latest->0);
        assert(prerequisites.contains(plan.source.latest->0));
    }
}

/// Releasing the readers of a takeover lets its publication go on and changes nothing
/// else. It is possible while the publication has not begun.
pub proof fn released_takeovers_go_on(journal: JournalView, id: Id)
    ensures
        replacement_released(journal, id) matches Ok(after) ==> {
            &&& journal.replacements.contains_key(id)
            &&& after == (JournalView { replacements: after.replacements, ..journal })
            &&& after.replacements == journal.replacements.insert(
                id,
                ReplacementRecord { local_ready: true, ..journal.replacements[id] },
            )
        },
        replacement_released(journal, id) is Ok <==> {
            &&& journal.replacements.contains_key(id)
            &&& journal.replacements[id].local_ready || {
                &&& journal.objects.contains_key(journal.replacements[id].victim)
                &&& journal.objects[journal.replacements[id].victim].unlinked
                &&& journal.uploads.contains_key(id)
                &&& journal.uploads[id].state == UploadState::Preparing || journal.uploads[id].state
                    == UploadState::Pending || journal.uploads[id].state
                    == UploadState::VerifyRequired
            }
        },
{
    if journal.replacements.contains_key(id) && journal.replacements[id].local_ready {
        assert(journal.replacements =~= journal.replacements.insert(
            id,
            ReplacementRecord { local_ready: true, ..journal.replacements[id] },
        ));
    }
}

/// After a restart the reader barrier of a takeover is closed again exactly where its
/// source has neither been fetched nor opened; nothing else changes.
pub proof fn restarts_guard_unfetched_sources(journal: JournalView, id: Id)
    ensures
        gates_closed(journal) == (JournalView {
            replacements: gates_closed(journal).replacements,
            ..journal
        }),
        gates_closed(journal).replacements.contains_key(id) <==> journal.replacements.contains_key(
            id,
        ),
        journal.replacements.contains_key(id) ==> {
            let unfetched = {
                &&& journal.uploads.contains_key(id)
                &&& journal.uploads[id].sha256@.len() == 0
                &&& journal.preparations.contains_key(id)
                &&& journal.objects.contains_key(journal.preparations[id].source)
                &&& journal.objects[journal.preparations[id].source].working_file is None
            };
            gates_closed(journal).replacements[id] == (ReplacementRecord {
                local_ready: journal.replacements[id].local_ready && !unfetched,
                ..journal.replacements[id]
            })
        },
{
}

/// The earliest capture whose time has come is the next, once all it waits for is
/// complete and nobody is at it.
pub proof fn captures_wait_for_their_turn(journal: JournalView, now: u64, id: Id)
    ensures
        next_preparation(journal, now, id) ==> {
            &&& journal.uploads.contains_key(id)
            &&& journal.uploads[id].state == UploadState::Preparing
            &&& journal.uploads[id].attempt is None
            &&& journal.uploads[id].retry_at <= now
            &&& forall|before: Id| #[trigger]
                journal.prerequisites.contains((id, before)) ==> journal.queue.contains_key(before)
                    && journal.queue[before].complete
            &&& forall|other: Id| #[trigger]
                journal.uploads.contains_key(other) && capturable(
                    journal,
                    now,
                    other,
                    journal.uploads[other],
                ) ==> journal.uploads[id].sequence <= journal.uploads[other].sequence
        },
        (journal.uploads.contains_key(id) && journal.uploads[id].state == UploadState::Preparing
            && journal.uploads[id].attempt is None && journal.uploads[id].retry_at <= now
            && forall|before: Id| #[trigger]
            journal.prerequisites.contains((id, before)) ==> journal.queue.contains_key(before)
                && journal.queue[before].complete) ==> capturable(
            journal,
            now,
            id,
            journal.uploads[id],
        ),
{
}

/// What is captured is the version of the source that the provider confirmed: the one that
/// is known already, or the one in the receipt that it waited for. It is handed out only
/// where it is a plain file of the expected length whose bytes are fixed.
pub proof fn captures_take_the_confirmed_version(
    journal: JournalView,
    attempt: Id,
    id: Id,
    result: Result<Option<(UploadRecord, UploadPreparation)>, JournalError>,
    after: JournalView,
)
    requires
        journal.uploads.contains_key(id),
        preparation_claimed(journal, attempt, id, result, after),
    ensures
        result is Ok ==> {
            let (record, preparation) = result->Ok_0->0;
            let before = journal.preparations[id];
            let node = preparation.remote->0;
            &&& result->Ok_0 is Some
            &&& journal.preparations.contains_key(id) && before.operation == id
            &&& record == (UploadRecord { attempt: Some(attempt), ..journal.uploads[id] })
            &&& after.uploads == journal.uploads.insert(id, record)
            &&& after.preparations == journal.preparations.insert(id, preparation)
            &&& after.mutations == journal.mutations && after.queue == journal.queue
            &&& preparation == (UploadPreparation { remote: Some(node), ..before })
            &&& before.remote is Some ==> node == before.remote->0
            &&& before.remote is None ==> before.source_base is Some && provider_gave(
                journal,
                before.source_base->0,
                node,
            )
            &&& node.kind == NodeKind::File && node.target is None && node.size
                == journal.uploads[id].size && node.etag is Some
            &&& (node.content_version is Some && node.content_version->0@.len() > 0) || (
            node.etag->0@.len() > 0)
        },
        // A version that is known and can be fetched is handed out.
        (journal.preparations.contains_key(id) && journal.preparations[id].operation == id
            && journal.preparations[id].scope@ == journal.uploads[id].scope@
            && journal.preparations[id].remote is Some && journal.preparations[id].remote->0.kind
            == NodeKind::File && journal.preparations[id].remote->0.target is None
            && journal.preparations[id].remote->0.size == journal.uploads[id].size
            && journal.preparations[id].remote->0.etag is Some
            && journal.preparations[id].remote->0.etag->0@.len() > 0) ==> result is Ok,
{
}

/// An attempt holds a capture while it is being made under that attempt.
pub open spec fn holds_capture(journal: JournalView, id: Id, attempt: Id) -> bool {
    &&& journal.uploads.contains_key(id)
    &&& journal.uploads[id].state == UploadState::Preparing
    &&& journal.uploads[id].attempt == Some(attempt)
    &&& journal.preparations.contains_key(id)
    &&& journal.preparations[id].remote is Some
    &&& journal.preparations[id].scope@ == journal.uploads[id].scope@
    &&& journal.preparations[id].operation == id
}

/// A capture that did not succeed is put back for later, or away as a conflict; only the
/// attempt that holds it can do so.
pub proof fn failed_captures_are_put_back(
    journal: JournalView,
    now: u64,
    id: Id,
    attempt: Id,
    conflict: bool,
    delay: u64,
)
    requires
        flags_agree(journal),
    ensures
        preparation_held(journal, id, attempt) is Ok <==> holds_capture(journal, id, attempt),
        preparation_deferred(journal, now, id, attempt, conflict, delay) is Ok <==> holds_capture(
            journal,
            id,
            attempt,
        ),
        preparation_deferred(journal, now, id, attempt, conflict, delay) matches Ok(after) ==> {
            let put = after.uploads[id];
            let before = journal.uploads[id];
            &&& after.uploads == journal.uploads.insert(id, put)
            &&& put == (UploadRecord {
                attempt: None,
                state: if conflict {
                    UploadState::Conflict
                } else {
                    UploadState::Preparing
                },
                failed_attempts: put.failed_attempts,
                retry_at: put.retry_at,
                ..before
            })
            &&& before.failed_attempts < u32::MAX ==> put.failed_attempts == before.failed_attempts
                + 1
            &&& now + delay <= 0x7fff_ffff_ffff_ffff ==> put.retry_at == now + delay
            &&& after.preparations == journal.preparations && after.objects == journal.objects
        },
{
}

/// The digest of a capture is written down only for a complete one, and never changes.
pub proof fn captures_are_recorded_whole(
    journal: JournalView,
    id: Id,
    attempt: Id,
    source: WorkingSource,
    own: bool,
    existing: Option<Seq<char>>,
    usage: Usage,
    digest: String,
)
    ensures
        capture_recorded(journal, id, attempt, source, own, existing, usage, digest) matches Ok(
            after,
        ) ==> {
            let before = journal.preparations[id];
            &&& holds_capture(journal, id, attempt)
            &&& own && source.written == source.size && source.size == journal.uploads[id].size
            &&& existing is Some ==> existing->0 == digest@
            &&& after.preparations.contains_key(id)
            &&& after.preparations[id].sha256 is Some
            &&& after.preparations[id].sha256->0@ == digest@
            &&& before.sha256 is Some ==> after == journal
            &&& before.sha256 is None ==> after == (JournalView {
                preparations: journal.preparations.insert(
                    id,
                    UploadPreparation { sha256: Some(digest), ..before },
                ),
                ..journal
            })
        },
{
}

/// A finished capture is a pending upload of the captured bytes, the same operation as
/// before. Bytes that the source has locally by then are never overwritten.
pub proof fn finished_captures_become_pending(
    journal: JournalView,
    id: Id,
    attempt: Id,
    digest: String,
    stream: Id,
    version: String,
    source: Option<WorkingSource>,
    own: bool,
)
    requires
        flags_agree(journal),
        capture_finished(journal, id, attempt, digest, stream, version, source, own) is Ok,
    ensures
        ({
            let after = capture_finished(
                journal,
                id,
                attempt,
                digest,
                stream,
                version,
                source,
                own,
            )->Ok_0;
            let before = journal.uploads[id];
            let home = journal.preparations[id].source;
            &&& holds_capture(journal, id, attempt)
            &&& after.uploads == journal.uploads.insert(
                id,
                UploadRecord {
                    state: UploadState::Pending,
                    sha256: digest,
                    attempt: None,
                    retry_at: 0,
                    working_file: after.uploads[id].working_file,
                    ..before
                },
            )
            &&& after.mutations == journal.mutations
            &&& journal.objects[home].working_file is Some ==> after.working == journal.working
                && after.objects == journal.objects && after.uploads[id].working_file
                == journal.objects[home].working_file
            &&& journal.objects[home].working_file is None ==> {
                &&& source is Some && source->0.written == source->0.size
                &&& after.working.contains_key(stream)
                &&& !after.working[stream].dirty
                &&& after.working == journal.working.insert(stream, after.working[stream])
            }
        }),
{
    let record = journal.uploads[id];
    let preparation = journal.preparations[id];
    let object = journal.objects[preparation.source];
    let state = if object.working_file is Some {
        journal
    } else {
        crate::journal::working::stream_published_for(
            journal,
            stream,
            version,
            preparation.source,
            preparation.scope,
            preparation.remote->0,
            source->0,
            own,
        )->Ok_0.0
    };
    let working_file = if object.working_file is Some {
        object.working_file
    } else {
        state.objects[preparation.source].working_file
    };
    an_upload_is_stored_as_given(
        state,
        UploadRecord {
            working_file,
            sha256: digest,
            state: UploadState::Pending,
            attempt: None,
            retry_at: 0,
            ..record
        },
    );
}

} // verus!
