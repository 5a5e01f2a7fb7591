//! Every operation that adds to the namespace, moves in it or takes a name over keeps
//! it consistent: no two objects come to share an entry, a provider identity, a local
//! identity or a stream.
use crate::journal::ancestry::{routes, RoutesView};
use crate::journal::capture::{entries_captured, entry_captured, path_captured};
use crate::journal::directories::directory_created;
use crate::journal::generations::answered;
use crate::journal::laws::{
    a_receipt_keeps_consistency, lemma_same_objects, lemma_save_consistent,
};
use crate::journal::mutations::{mutation_enqueued, mutation_queued, new_mutation};
use crate::journal::namespace::{consistent, save_step};
use crate::journal::observation::{attached, attached_to, file_observed};
use crate::journal::preparation::{capture_finished, preparation_held};
use crate::journal::receipts::{marked, mutation_saved, upserted};
use crate::journal::records::{
    JournalError, JournalView, MutationRecord, MutationState, NamespaceObject, UploadRecord, WorkingFile, WriteBase,
};
use crate::journal::replacements::{
    cleanup_object, replacement_committed, source_prepared, source_renamed, stream_replaced,
    victim_released, ReplacementIds, ReplacementPlan,
};
use crate::journal::sealing::{Sealed, Usage, WorkingSource};
use crate::journal::uploads::upload_queued;
use crate::journal::working::{
    change_begun, change_finished, file_relocated, relocating, relocating_file,
    relocation_refusal, sealing, stream_published, stream_published_for, stream_relocated,
    stream_saved, stream_sealed,
};
use crate::model::{Id, Node, Scope, UploadIntent};
use vstd::prelude::*;

verus! {

/// Saving from a state with the same objects keeps the namespace consistent.
proof fn lemma_saves(journal: JournalView, state: JournalView)
    requires
        consistent(journal),
        state.objects == journal.objects,
    ensures
        forall|object: NamespaceObject|
            match #[trigger] save_step(state, object) {
                Ok(after) => consistent(after),
                Err(_) => true,
            },
{
    lemma_same_objects(journal, state);
    assert forall|object: NamespaceObject|
        match #[trigger] save_step(state, object) {
            Ok(after) => consistent(after),
            Err(_) => true,
        } by {
        lemma_save_consistent(state, object);
    }
}

/// Queueing touches no object.
proof fn lemma_queueing_keeps_objects(
    journal: JournalView,
    upload: UploadRecord,
    mutation: MutationRecord,
    prerequisites: Seq<Id>,
)
    ensures
        match upload_queued(journal, upload, prerequisites) {
            Ok((after, _)) => after.objects == journal.objects,
            Err(_) => true,
        },
        match mutation_queued(journal, mutation, prerequisites) {
            Ok((after, _)) => after.objects == journal.objects,
            Err(_) => true,
        },
{
}

/// Observing a file and creating a directory keep the namespace consistent.
pub proof fn entries_keep_consistency(
    journal: JournalView,
    id: Id,
    operation: Id,
    identity: String,
    now: u64,
    scope: Scope,
    node: Node,
    parent: String,
    name: String,
    valid: bool,
)
    requires
        consistent(journal),
    ensures
        match file_observed(journal, id, scope, node, valid) {
            Ok((after, _)) => consistent(after),
            Err(_) => true,
        },
        match directory_created(journal, id, operation, identity, now, scope, parent, name, valid) {
            Ok((after, _)) => consistent(after),
            Err(_) => true,
        },
{
    lemma_saves(journal, journal);
    lemma_saves(journal, crate::journal::namespace::with_rule(journal, scope@));
    let request = crate::model::MutationRequest {
        scope,
        intent: crate::model::MutationIntent::CreateFolder { parent, name },
    };
    if let Ok((queued, _)) = mutation_enqueued(
        journal,
        operation,
        request,
        None,
        Seq::empty(),
        None,
    ) {
        lemma_saves(journal, crate::journal::namespace::with_rule(queued, scope@));
    }
}

/// Attaching a stream, and letting its object present it, keep the namespace consistent.
pub proof fn streams_keep_consistency(
    journal: JournalView,
    existing: Option<NamespaceObject>,
    file: WorkingFile,
)
    requires
        consistent(journal),
    ensures
        match attached_to(journal, existing, file) {
            Ok((after, _)) => consistent(after),
            Err(_) => true,
        },
        match attached(journal, file) {
            Ok((after, _)) => consistent(after),
            Err(_) => true,
        },
        match stream_saved(journal, file) {
            Ok(after) => consistent(after),
            Err(_) => true,
        },
{
    lemma_saves(journal, crate::journal::namespace::with_rule(journal, file.scope@));
    lemma_saves(
        journal,
        JournalView { working: journal.working.insert(file.id, file), ..journal },
    );
}

/// Publishing, changing and sealing a stream keep the namespace consistent.
pub proof fn edits_keep_consistency(
    journal: JournalView,
    id: Id,
    upload: Id,
    object: Id,
    local: String,
    version: String,
    scope: Scope,
    node: Node,
    new: bool,
    source: WorkingSource,
    own: bool,
    valid: bool,
    intent: UploadIntent,
    usage: Usage,
    sealed: Sealed,
    size: u64,
    length: u64,
    now: u64,
)
    requires
        consistent(journal),
    ensures
        match stream_published(journal, id, local, version, scope, node, new, source, own, valid) {
            Ok((after, _)) => consistent(after),
            Err(_) => true,
        },
        match stream_published_for(journal, id, version, object, scope, node, source, own) {
            Ok((after, _)) => consistent(after),
            Err(_) => true,
        },
        match change_begun(journal, id, size, length, usage.bytes) {
            Ok((after, _)) => consistent(after),
            Err(_) => true,
        },
        match change_finished(journal, id, size, now) {
            Ok((after, _)) => consistent(after),
            Err(_) => true,
        },
        match stream_sealed(journal, upload, id, intent, valid, usage, sealed) {
            Ok((after, _)) => consistent(after),
            Err(_) => true,
        },
{
    assert forall|state: JournalView, existing: Option<NamespaceObject>, file: WorkingFile|
        state.objects == journal.objects implies (match #[trigger] attached_to(
        state,
        existing,
        file,
    ) {
        Ok((after, _)) => consistent(after),
        Err(_) => true,
    }) by {
        lemma_same_objects(journal, state);
        streams_keep_consistency(state, existing, file);
    }
    assert forall|state: JournalView, file: WorkingFile|
        state.objects == journal.objects implies (match #[trigger] stream_saved(state, file) {
        Ok(after) => consistent(after),
        Err(_) => true,
    }) by {
        lemma_same_objects(journal, state);
        streams_keep_consistency(state, None, file);
    }
    if let Ok((after, _)) = stream_published(
        journal,
        id,
        local,
        version,
        scope,
        node,
        new,
        source,
        own,
        valid,
    ) {
        let file = crate::journal::working::new_stream(id, local, version, scope, node, new);
        streams_keep_consistency(journal, None, file);
        lemma_same_objects(attached(journal, file)->Ok_0.0, after);
    }
    if let Ok((after, _)) = stream_published_for(
        journal,
        id,
        version,
        object,
        scope,
        node,
        source,
        own,
    ) {
        let file = crate::journal::working::new_stream(id, version, version, scope, node, false);
        lemma_same_objects(
            attached_to(journal, Some(journal.objects[object]), file)->Ok_0.0,
            after,
        );
    }
}

/// Moving a saved stream or a file without one keeps the namespace consistent.
proof fn lemma_moves(
    journal: JournalView,
    operation: Id,
    id: Id,
    parent: String,
    name: String,
    named: bool,
    valid: bool,
)
    requires
        consistent(journal),
    ensures
        match stream_relocated(journal, operation, id, parent, name, named, valid) {
            Ok((after, _)) => consistent(after),
            Err(_) => true,
        },
        match file_relocated(journal, operation, id, parent, name, valid) {
            Ok((after, _)) => consistent(after),
            Err(_) => true,
        },
{
    assert forall|state: JournalView, file: WorkingFile|
        state.objects == journal.objects implies (match #[trigger] stream_saved(state, file) {
        Ok(after) => consistent(after),
        Err(_) => true,
    }) by {
        lemma_same_objects(journal, state);
        streams_keep_consistency(state, None, file);
    }
    assert forall|state: JournalView, object: NamespaceObject|
        state.objects == journal.objects implies (match #[trigger] save_step(state, object) {
        Ok(after) => consistent(after),
        Err(_) => true,
    }) by {
        lemma_saves(journal, state);
    }
}

/// Saving a stream as a snapshot keeps the namespace consistent.
proof fn lemma_sealing(
    journal: JournalView,
    upload: Id,
    id: Id,
    valid: bool,
    usage: Usage,
    sealed: Sealed,
    result: Result<Option<UploadRecord>, JournalError>,
    after: JournalView,
)
    requires
        consistent(journal),
        sealing(journal, upload, id, valid, usage, sealed, result, after),
    ensures
        consistent(after),
{
    assert forall|state: JournalView, file: WorkingFile|
        state.objects == journal.objects implies (match #[trigger] stream_saved(state, file) {
        Ok(after) => consistent(after),
        Err(_) => true,
    }) by {
        lemma_same_objects(journal, state);
        streams_keep_consistency(state, None, file);
    }
}

/// Moving a file keeps the namespace consistent: with a stream or without one, and also
/// where unsaved bytes are saved first.
pub proof fn moves_keep_consistency(
    journal: JournalView,
    upload: Id,
    operation: Id,
    id: Id,
    revision: u64,
    parent: String,
    name: String,
    named: bool,
    savable: bool,
    usage: Usage,
    sealed: Sealed,
    valid: bool,
    result: Result<MutationRecord, JournalError>,
    after: JournalView,
)
    requires
        consistent(journal),
        relocating_file(
            journal,
            upload,
            operation,
            id,
            revision,
            parent,
            name,
            named,
            savable,
            usage,
            sealed,
            valid,
            result,
            after,
        ) || relocating(
            journal,
            upload,
            operation,
            id,
            parent,
            name,
            named,
            savable,
            usage,
            sealed,
            valid,
            result,
            after,
        ),
    ensures
        consistent(after),
{
    let stream = if relocating(
        journal,
        upload,
        operation,
        id,
        parent,
        name,
        named,
        savable,
        usage,
        sealed,
        valid,
        result,
        after,
    ) {
        Some(id)
    } else if relocation_refusal(journal, id, revision) is None {
        journal.objects[id].working_file
    } else {
        None
    };
    lemma_moves(journal, operation, id, parent, name, named, valid);
    if let Some(stream) = stream {
        lemma_moves(journal, operation, stream, parent, name, named, valid);
        if named && journal.working.contains_key(stream) && journal.working[stream].node.id@
            != parent@ && journal.working[stream].dirty {
            let (saved, middle) = choose|
                saved: Result<Option<UploadRecord>, JournalError>,
                middle: JournalView,
            | #[trigger]
                sealing(journal, upload, stream, savable, usage, sealed, saved, middle)
                    && match saved {
                    Err(error) => result == Err::<MutationRecord, JournalError>(error) && after
                        == middle,
                    Ok(_) => answered(
                        stream_relocated(middle, operation, stream, parent, name, named, valid),
                        result,
                        middle,
                        after,
                    ),
                };
            lemma_sealing(journal, upload, stream, savable, usage, sealed, saved, middle);
            lemma_moves(middle, operation, stream, parent, name, named, valid);
        }
    }
}

/// A replacement keeps the namespace consistent once it is queued: the victim gives its
/// name up before the source takes it.
pub proof fn takeovers_keep_consistency(
    journal: JournalView,
    plan: ReplacementPlan,
    cleanup_base: Option<WriteBase>,
    preserve: bool,
    upload: UploadRecord,
    ids: ReplacementIds,
    identity: String,
)
    requires
        consistent(journal),
    ensures
        match replacement_committed(
            journal,
            plan,
            cleanup_base,
            preserve,
            upload,
            ids,
            identity,
        ) {
            Ok((after, _)) => consistent(after),
            Err(_) => true,
        },
{
    if let Ok((after, _)) = replacement_committed(
        journal,
        plan,
        cleanup_base,
        preserve,
        upload,
        ids,
        identity,
    ) {
        let source = journal.objects[plan.source.id];
        let victim = journal.objects[plan.victim.id];
        let cleanup = new_mutation(ids.cleanup, plan.cleanup, cleanup_base, None, true);
        let queued = mutation_queued(journal, cleanup, seq![upload.id])->Ok_0.0;
        lemma_queueing_keeps_objects(journal, upload, cleanup, seq![upload.id]);
        lemma_same_objects(journal, queued);
        let released = victim_released(queued, victim, plan.victim_working)->Ok_0;
        assert forall|state: JournalView, object: NamespaceObject|
            state.objects == queued.objects implies (match #[trigger] save_step(state, object) {
            Ok(done) => consistent(done),
            Err(_) => true,
        }) by {
            lemma_saves(queued, state);
        }
        assert(consistent(released));
        let renamed = source_renamed(
            released,
            source,
            plan.source_working,
            victim,
            upload.id,
        )->Ok_0;
        assert forall|state: JournalView, object: NamespaceObject|
            state.objects == released.objects implies (match #[trigger] save_step(state, object) {
            Ok(done) => consistent(done),
            Err(_) => true,
        }) by {
            lemma_saves(released, state);
        }
        assert(consistent(renamed));
        let last = cleanup_object(plan.source, ids.object, identity, ids.cleanup);
        lemma_saves(renamed, renamed);
        let state = save_step(renamed, last)->Ok_0;
        lemma_same_objects(state, after);
    }
}

/// Replacing one file by another keeps the namespace consistent, whether the source has
/// local bytes or its bytes are still to be fetched.
pub proof fn replacements_keep_consistency(
    journal: JournalView,
    plan: ReplacementPlan,
    intent: UploadIntent,
    valid: bool,
    clean: bool,
    preserve: bool,
    usage: Usage,
    sealed: Sealed,
    empty: String,
    ids: ReplacementIds,
    identity: String,
)
    requires
        consistent(journal),
    ensures
        match stream_replaced(
            journal,
            plan,
            intent,
            valid,
            clean,
            preserve,
            usage,
            sealed,
            ids,
            identity,
        ) {
            Ok((after, _)) => consistent(after),
            Err(_) => true,
        },
        match source_prepared(
            journal,
            plan,
            intent,
            valid,
            clean,
            preserve,
            empty,
            ids,
            identity,
        ) {
            Ok((after, _)) => consistent(after),
            Err(_) => true,
        },
{
    assert forall|state: JournalView, base: Option<WriteBase>, upload: UploadRecord|
        state.objects == journal.objects implies (match #[trigger] replacement_committed(
        state,
        plan,
        base,
        preserve,
        upload,
        ids,
        identity,
    ) {
        Ok((after, _)) => consistent(after),
        Err(_) => true,
    }) by {
        lemma_same_objects(journal, state);
        takeovers_keep_consistency(state, plan, base, preserve, upload, ids, identity);
    }
    assert forall|record: UploadRecord, prerequisites: Seq<Id>|
        match #[trigger] upload_queued(journal, record, prerequisites) {
            Ok((after, _)) => after.objects == journal.objects,
            Err(_) => true,
        } by {
        let cleanup = new_mutation(ids.cleanup, plan.cleanup, None, None, true);
        lemma_queueing_keeps_objects(journal, record, cleanup, prerequisites);
    }
}

/// Finishing a capture keeps the namespace consistent.
pub proof fn captures_keep_consistency(
    journal: JournalView,
    id: Id,
    attempt: Id,
    digest: String,
    stream: Id,
    version: String,
    source: Option<WorkingSource>,
    own: bool,
)
    requires
        consistent(journal),
    ensures
        match capture_finished(journal, id, attempt, digest, stream, version, source, own) {
            Ok(after) => consistent(after),
            Err(_) => true,
        },
{
    if let Ok(after) = capture_finished(
        journal,
        id,
        attempt,
        digest,
        stream,
        version,
        source,
        own,
    ) {
        let (record, preparation) = preparation_held(journal, id, attempt)->Ok_0;
        let object = journal.objects[preparation.source];
        if object.working_file is Some {
            lemma_same_objects(journal, after);
        } else {
            let remote = preparation.remote->0;
            let file = crate::journal::working::new_stream(
                stream,
                version,
                version,
                preparation.scope,
                remote,
                false,
            );
            streams_keep_consistency(journal, Some(object), file);
            let attached_state = attached_to(journal, Some(object), file)->Ok_0.0;
            lemma_same_objects(attached_state, after);
        }
    }
}

/// Capturing the entries of a path keeps the namespace consistent.
proof fn lemma_entries_consistent(
    journal: JournalView,
    kept: RoutesView,
    count: int,
    ids: Seq<Id>,
    entries: Seq<(Scope, Node)>,
    from: int,
)
    requires
        consistent(journal),
    ensures
        match entries_captured(journal, kept, count, ids, entries, from) {
            Ok(after) => consistent(after),
            Err(_) => true,
        },
    decreases entries.len() - from,
{
    if 0 <= from < entries.len() {
        let (scope, node) = entries[from];
        let ruled = crate::journal::namespace::with_rule(journal, scope@);
        lemma_saves(journal, ruled);
        lemma_same_objects(journal, ruled);
        if let Ok((state, more)) = entry_captured(journal, kept, count, ids[from], scope, node) {
            assert(consistent(state));
            lemma_entries_consistent(state, kept, more, ids, entries, from + 1);
        }
    }
}

/// Capturing a traversed path keeps the namespace consistent.
pub proof fn routes_keep_consistency(
    journal: JournalView,
    ids: Seq<Id>,
    entries: Seq<(Scope, Node)>,
)
    requires
        consistent(journal),
    ensures
        match path_captured(journal, ids, entries) {
            Ok(after) => consistent(after),
            Err(_) => true,
        },
{
    lemma_entries_consistent(
        journal,
        routes(journal.objects),
        journal.objects.len() as int,
        ids,
        entries,
        0,
    );
}

/// Storing a namespace change, whatever its receipt, keeps the namespace consistent.
pub proof fn confirmed_changes_keep_consistency(journal: JournalView, record: MutationRecord)
    requires
        consistent(journal),
    ensures
        match mutation_saved(journal, record) {
            Ok(after) => consistent(after),
            Err(_) => true,
        },
{
    let stored = marked(
        JournalView { mutations: journal.mutations.insert(record.id, record), ..journal },
        record.id,
        record.state == MutationState::Applied,
    );
    if journal.queue.contains_key(record.id) {
        lemma_same_objects(journal, stored);
        if let Some(node) = upserted(record.receipt) {
            a_receipt_keeps_consistency(stored, record.id, record.sequence, node);
        }
    }
}

} // verus!
