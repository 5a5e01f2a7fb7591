//! What is refused before anything changes, and what the smallest steps leave as it is.
use crate::digest::digest_text;
use crate::journal::capture::{provider_form, route_update};
use crate::journal::directories::{
    arrived, directable, follow_node_refusal, mutation_directed, new_directory, upload_directed,
};
use crate::journal::handoff::{all_confirmed, is_confirmed, stream_clean, stream_retired};
use crate::journal::namespace::{local_object, owns, remote_taken, save_step};
use crate::journal::generations::{confirmed_of, find, place_of, scope_of, Operation};
use crate::journal::observation::{attachment, presented, stream_owner, stream_updated, taken_back};
use crate::journal::preparation::capture_recorded;
use crate::journal::publication::{publication_refusal, snapshot_of};
use crate::journal::queue::{barrier_refusal, barred, queued_before};
use crate::journal::receipts::mismatched;
use crate::journal::records::{
    Destination, JournalError, JournalView, MutationRecord, MutationState, NamespaceNames,
    NamespaceObject, QueueRow, UploadRecord, UploadState, WorkingFile, WriteBase,
};
use crate::journal::replacements::{
    cleanup_object, replacement_committed, source_renamed, victim_released, ReplacementIds,
    ReplacementPlan,
};
use crate::journal::sealing::{seals, Sealed, Usage, WorkingSource};
use crate::journal::unlinked::{in_step, released_stream};
use crate::journal::uploads::{
    admission, overfull, recovered_mutation, recovered_upload, transferring,
};
use crate::journal::working::{incomplete, slot_used, stream_used, unfit};
use crate::model::{Id, MutationIntent, Node, NodeKind, Scope, ScopeView, UploadIntent};
use vstd::prelude::*;

verus! {

/// A stream is opened only for a plain file of a known place: a new one is empty, and an
/// existing one has a version that a save can name.
pub proof fn streams_are_of_plain_files(scope: Scope, node: Node, new: bool, valid: bool)
    ensures
        !unfit(scope, node, new, valid) <==> {
            &&& scope.provider@.len() > 0 && scope.collection@.len() > 0
            &&& node.kind == NodeKind::File && node.target is None
            &&& node.parent_id is Some
            &&& new ==> node.size == 0
            &&& !new ==> node.etag is Some
            &&& valid
        },
{
}

/// A source is taken over only whole: written to its end, of its stated length, by the one that
/// was reserved for it.
pub proof fn sources_are_taken_whole(source: WorkingSource, own: bool, size: u64)
    ensures
        !incomplete(source, own, size) <==> own && source.written == source.size && size
            == source.size,
{
}

/// A payload is refused exactly where there are too many files, or where its bytes do not fit
/// what is left of the quota.
pub proof fn payloads_fit_the_quota(quota: u64, usage: Usage, size: u64)
    requires
        size > 0,
    ensures
        overfull(quota, usage, size) <==> usage.files >= 10_000 || usage.bytes + size > quota,
{
}

/// An operation is admitted only for this account, into a named collection, behind an operation
/// without another successor, and with barriers that can be waited for.
pub proof fn operations_are_admitted_for_their_account(
    journal: JournalView,
    scope: Scope,
    valid: bool,
    base: Option<WriteBase>,
    prerequisites: Seq<Id>,
)
    ensures
        admission(journal, scope, valid, base, prerequisites) is None ==> {
            &&& scope.account@ == journal.account
            &&& scope.provider@.len() > 0 && scope.collection@.len() > 0
            &&& valid
            &&& base matches Some(base) ==> !journal.successors.contains_key(base.predecessor)
            &&& barrier_refusal(journal, scope@, prerequisites) is None
        },
        scope.account@ != journal.account ==> admission(journal, scope, valid, base, prerequisites)
            == Some(JournalError::Account),
        scope.account@ == journal.account && !valid ==> admission(
            journal,
            scope,
            valid,
            base,
            prerequisites,
        ) == Some(JournalError::Intent),
        scope.account@ == journal.account && scope.provider@.len() > 0 && scope.collection@.len()
            > 0 && valid && base is None ==> admission(journal, scope, valid, base, prerequisites)
            == barrier_refusal(journal, scope@, prerequisites),
{
}

/// Barriers hold an operation back only where all of them are queued before it.
pub proof fn barriers_come_before(
    journal: JournalView,
    id: Id,
    sequence: u64,
    scope: ScopeView,
    ids: Seq<Id>,
    i: int,
)
    requires
        0 <= i < ids.len(),
    ensures
        barred(journal, id, sequence, scope, ids) is Ok ==> queued_before(
            journal,
            ids[i],
            sequence,
        ),
        barred(journal, id, sequence, scope, ids) matches Ok(after) ==> {
            &&& journal.prerequisites.subset_of(after.prerequisites)
            &&& after.uploads == journal.uploads && after.mutations == journal.mutations
            &&& after.queue == journal.queue
        },
        !queued_before(journal, ids[i], sequence) ==> barred(
            journal,
            id,
            sequence,
            scope,
            ids,
        ) is Err,
{
}

/// An attempt of an earlier process is looked up before anything is sent again. One that
/// captured bytes starts over, and what was not under way stays as it was.
pub proof fn interrupted_attempts_are_looked_up(upload: UploadRecord, change: MutationRecord)
    ensures
        upload.state == UploadState::Uploading || upload.state == UploadState::Verifying ==> {
            &&& recovered_upload(upload).state == UploadState::VerifyRequired
            &&& recovered_upload(upload).attempt is None
        },
        upload.state == UploadState::Preparing ==> recovered_upload(upload).state
            == UploadState::Preparing && recovered_upload(upload).attempt is None,
        upload.state == UploadState::Pending || upload.state == UploadState::VerifyRequired
            || upload.state == UploadState::Uploaded || upload.state == UploadState::Conflict
            || upload.state == UploadState::Failed ==> recovered_upload(upload) == upload,
        recovered_upload(upload).intent == upload.intent && recovered_upload(upload).sequence
            == upload.sequence && recovered_upload(upload).sha256 == upload.sha256
            && recovered_upload(upload).failed_attempts == upload.failed_attempts,
        change.state == MutationState::Applying || change.state == MutationState::Verifying ==> {
            &&& recovered_mutation(change).state == MutationState::VerifyRequired
            &&& recovered_mutation(change).attempt is None
            &&& recovered_mutation(change).request == change.request
        },
        !(change.state == MutationState::Applying || change.state == MutationState::Verifying)
            ==> recovered_mutation(change) == change,
{
}

/// An attempt takes an upload over under its own identity and changes nothing else of it.
pub proof fn attempts_take_uploads_over(upload: UploadRecord, attempt: Id)
    ensures
        transferring(upload, attempt).state == UploadState::Uploading,
        transferring(upload, attempt).attempt == Some(attempt),
        transferring(upload, attempt).intent == upload.intent,
        transferring(upload, attempt).sequence == upload.sequence,
        transferring(upload, attempt).id == upload.id,
{
}

/// An upload or a change into a local folder is directed to the folder that the provider made
/// for it, and fails where the provider made none. Its name stays.
pub proof fn edits_are_directed_to_the_made_folder(
    journal: JournalView,
    id: Id,
    upload: UploadRecord,
    change: MutationRecord,
    folder: Node,
)
    ensures
        upload.intent matches UploadIntent::Create { parent, name } ==> {
            &&& upload_directed(journal, id, upload, Some(folder)) matches Ok(after) && {
                &&& after.uploads[id].intent == (UploadIntent::Create { parent: folder.id, name })
                &&& after.uploads[id].state == upload.state
            }
            &&& upload_directed(journal, id, upload, None) matches Ok(after) && {
                &&& after.uploads[id].state == UploadState::Failed
                &&& after.uploads[id].intent == upload.intent
            }
        },
        upload.intent is Replace ==> upload_directed(journal, id, upload, Some(folder)) == Err::<
            JournalView,
            JournalError,
        >(JournalError::Corrupt),
        mutation_directed(journal, id, change, Some(folder)) matches Ok(after) ==> {
            &&& change.request.intent matches MutationIntent::CreateFolder { name, .. }
                ==> after.mutations[id].request.intent == (MutationIntent::CreateFolder {
                parent: folder.id,
                name,
            })
            &&& change.request.intent matches MutationIntent::Relocate { before, name, .. }
                ==> after.mutations[id].request.intent == (MutationIntent::Relocate {
                before,
                parent: folder.id,
                name,
            })
            &&& after.mutations[id].state == change.state
        },
        mutation_directed(journal, id, change, None) matches Ok(after) ==> after.mutations[id].state
            == MutationState::Failed,
        change.request.intent is RemoveFile || change.request.intent is RemoveFolder
            ==> mutation_directed(journal, id, change, Some(folder)) is Err,
{
}

/// An operation is directed once, before it is complete, and only when the creation of its
/// folder is.
pub proof fn edits_are_directed_when_the_folder_is_made(journal: JournalView, id: Id, row: QueueRow)
    ensures
        directable(journal, id, row) ==> !row.complete && journal.destinations.contains_key(id)
            && !journal.destinations[id].resolved,
        journal.destinations.contains_key(id) && journal.destinations[id].predecessor is Some ==> {
            let before = journal.destinations[id].predecessor->0;
            directable(journal, id, row) ==> journal.queue.contains_key(before)
                && journal.queue[before].complete
        },
        !row.complete && journal.destinations.contains_key(id) && !journal.destinations[id].resolved
            && journal.destinations[id].predecessor is None ==> directable(journal, id, row),
{
}

/// A new folder has the given name in the given directory, belongs to nobody yet but is ours
/// to create, and holds nothing.
pub proof fn new_folders_are_ours(
    id: Id,
    identity: String,
    now: u64,
    scope: Scope,
    names: NamespaceNames,
    parent: String,
    name: String,
)
    ensures
        ({
            let folder = new_directory(id, identity, now, scope, names, parent, name);
            &&& folder.id == id && folder.scope == scope && folder.names == names
            &&& folder.node.kind == NodeKind::Folder && folder.node.name == name
            &&& folder.node.parent_id == Some(parent) && folder.node.id == identity
            &&& folder.node.modified_unix == now
            &&& folder.remote is None && folder.remote_owned
            &&& folder.working_file is None && folder.latest is None
            &&& !folder.unlinked && !folder.follows_remote
        }),
{
}

/// An object follows the provider only as the item that it is: still there, its own, of the
/// same kind, and in a directory.
pub proof fn objects_follow_their_own_item(object: NamespaceObject, remote: Node, valid: bool)
    ensures
        follow_node_refusal(object, remote, valid) is None <==> {
            &&& !object.unlinked && object.remote_owned
            &&& object.remote is Some && object.remote->0.id@ == remote.id@
            &&& remote.kind == object.node.kind
            &&& remote.kind != NodeKind::Shortcut && remote.target is None
            &&& remote.parent_id is Some && valid
            &&& object.revision < u64::MAX
        },
{
}

/// A stream is handed over only where nothing of it is unsaved and it is what its object shows,
/// and only where every operation on the object is confirmed. It is retired once.
pub proof fn unsaved_streams_are_not_handed_over(
    journal: JournalView,
    file: WorkingFile,
    object: NamespaceObject,
    operation: Id,
    id: Id,
)
    ensures
        stream_clean(file, object) <==> !file.dirty && file.latest == object.latest && file.node@
            == object.node@,
        all_confirmed(journal, object.id) && journal.operations.contains_key(operation)
            && journal.operations[operation] == object.id ==> is_confirmed(journal, operation),
        stream_retired(journal, None) == Ok::<JournalView, JournalError>(journal),
        stream_retired(journal, Some(id)) is Ok <==> journal.working.contains_key(id)
            && !journal.retired.contains_key(id),
        stream_retired(journal, Some(id)) matches Ok(after) ==> !after.working.contains_key(id)
            && after.retired.contains_key(id) && after.objects == journal.objects
            && after.uploads == journal.uploads,
{
}

/// A file is removed or replaced only where its stream is saved and is what its object shows;
/// the stream that loses its name is one state further and names the operation.
pub proof fn unsaved_streams_are_not_removed(
    file: WorkingFile,
    object: NamespaceObject,
    operation: Id,
)
    ensures
        in_step(file, object) <==> !file.dirty && !file.unlinked && file.latest == object.latest
            && file.node@ == object.node@,
        released_stream(file, operation) is Err <==> file.generation == u64::MAX,
        released_stream(file, operation) matches Ok(after) ==> {
            &&& after.unlinked
            &&& after.latest == Some(operation)
            &&& after.generation == file.generation + 1
            &&& after.id == file.id && after.node == file.node && after.dirty == file.dirty
        },
{
}

/// One provider item has one owner.
pub proof fn items_have_one_owner(journal: JournalView, object: NamespaceObject, other: Id)
    ensures
        object.remote_owned && object.remote is Some && journal.objects.contains_key(other) && other
            != object.id && owns(
            journal.objects[other],
            object.scope@,
            object.remote->0.id@,
        ) ==> remote_taken(journal, object),
        !object.remote_owned || object.remote is None ==> !remote_taken(journal, object),
        (forall|id: Id| #[trigger]
            journal.objects.contains_key(id) && id != object.id ==> !owns(
                journal.objects[id],
                object.scope@,
                object.remote->0.id@,
            )) ==> !remote_taken(journal, object),
{
}

/// No two streams stand for one file or one name.
pub proof fn streams_stand_for_one_file(journal: JournalView, file: WorkingFile, other: Id)
    ensures
        journal.working.contains_key(other) && journal.working[other].scope@ == file.scope@
            && journal.working[other].node.id@ == file.node.id@ ==> stream_used(journal, file),
        slot_used(journal, file) ==> stream_used(journal, file),
        (forall|id: Id| !journal.working.contains_key(id)) ==> !stream_used(journal, file)
            && !slot_used(journal, file),
{
}

/// Identities move in a takeover only where both sides are what it was planned for: the source
/// with an item of its own, the victim without a name but with the item that was published, and
/// the cleanup without an item.
pub proof fn takeovers_match_their_plan(
    source: NamespaceObject,
    victim: NamespaceObject,
    cleanup: NamespaceObject,
    sequence: u64,
    remote: Node,
)
    ensures
        !mismatched(source, victim, cleanup, sequence, remote) <==> {
            &&& source.remote is Some && source.remote_owned
            &&& victim.remote is Some && victim.remote_owned && victim.unlinked
            &&& victim.remote->0.id@ == remote.id@
            &&& source.remote->0.id@ != remote.id@
            &&& source.scope@ == victim.scope@
            &&& source.remote_sequence < sequence
            &&& !cleanup.remote_owned && cleanup.unlinked
        },
{
}

/// A publication starts from a known point and holds every changed object whole.
pub proof fn publications_start_from_a_known_point(
    journal: JournalView,
    after: u64,
    rows: Seq<(u64, Id)>,
    i: int,
)
    requires
        publication_refusal(journal, after, rows) is None,
    ensures
        after <= journal.clock,
        0 <= i < rows.len() ==> snapshot_of(journal, rows[i].1) is Ok,
    decreases rows.len(),
{
    if 0 < i < rows.len() {
        publications_start_from_a_known_point(journal, after, rows.drop_first(), i - 1);
        assert(rows.drop_first()[i - 1] == rows[i]);
    }
}

/// A sealed snapshot has the length and the digest of the bytes that were sealed.
pub proof fn snapshots_have_the_sealed_bytes(sealed: Sealed, bytes: Seq<u8>)
    ensures
        seals(sealed, bytes) <==> sealed.size == bytes.len() && sealed.sha256@ == digest_text(bytes),
{
}

/// An object that is taken back from the provider keeps its local identity, has the item that
/// was seen, and no longer follows it.
pub proof fn taken_back_objects_keep_their_identity(
    journal: JournalView,
    object: NamespaceObject,
    node: Node,
)
    ensures
        ({
            let after = taken_back(journal, object, node);
            &&& after.remote == Some(node)
            &&& !after.follows_remote
            &&& after.id == object.id && after.latest == object.latest
            &&& after.working_file == object.working_file && after.unlinked == object.unlinked
        }),
{
}

/// A stream that goes on is shown by its object: as its node, behind its latest operation. It is
/// refused where the two are not one file any more.
pub proof fn objects_show_their_stream(journal: JournalView, file: WorkingFile)
    ensures
        stream_owner(journal.objects, file.id) is None ==> stream_updated(journal, file) == Err::<
            JournalView,
            JournalError,
        >(JournalError::Storage),
        stream_owner(journal.objects, file.id) matches Some(object) ==> (object.scope@
            != file.scope@ || object.node.id@ != file.node.id@ || object.unlinked != file.unlinked)
            ==> stream_updated(journal, file) == Err::<JournalView, JournalError>(
            JournalError::Stale,
        ),
{
}

/// A stream joins an object only where the object has none and both are named or nameless
/// alike; it is shown then under the object's identity, name and place.
pub proof fn streams_join_free_objects(
    journal: JournalView,
    object: NamespaceObject,
    file: WorkingFile,
)
    ensures
        object.working_file is Some || object.unlinked != file.unlinked ==> attachment(
            journal,
            Some(object),
            file,
        ) == Err::<(NamespaceObject, WorkingFile), JournalError>(JournalError::Stale),
        attachment(journal, Some(object), file) matches Ok((shown, joined)) ==> {
            &&& joined.node.id == shown.node.id && joined.node.name == shown.node.name
            &&& joined.node.parent_id == shown.node.parent_id
            &&& joined.latest == shown.latest
            &&& joined.id == file.id && joined.dirty == file.dirty
        },
{
}

/// A folder or link on a way is stored under the provider's identities: its own, and that of
/// the folder that it stands in.
pub proof fn ways_are_stored_under_provider_identities(
    journal: JournalView,
    known: Option<NamespaceObject>,
    scope: ScopeView,
    node: Node,
)
    ensures
        known matches Some(object) ==> object.remote is None ==> provider_form(
            journal,
            known,
            scope,
            node,
        ) == Err::<Node, JournalError>(JournalError::Corrupt),
        provider_form(journal, known, scope, node) matches Ok(form) ==> {
            &&& known is Some ==> form.id == known->0.remote->0.id
            &&& known is None ==> form.id == node.id
            &&& form.name == node.name && form.kind == node.kind && form.target == node.target
            &&& node.parent_id matches Some(parent) ==> (local_object(
                journal.objects,
                scope,
                parent@,
            ) matches Some(folder) ==> folder.remote is Some && form.parent_id == Some(
                folder.remote->0.id,
            ))
            &&& node.parent_id matches Some(parent) ==> (local_object(
                journal.objects,
                scope,
                parent@,
            ) is None ==> form.parent_id == node.parent_id)
        },
{
}

/// A way that is known as it is stays; any other is stored as it was seen, as a new object only
/// where there is room for one more.
pub proof fn ways_are_stored_as_seen(
    journal: JournalView,
    count: int,
    id: Id,
    scope: Scope,
    node: Node,
    known: Option<NamespaceObject>,
)
    ensures
        route_update(journal, count, id, scope, node, known) matches Ok((object, changed, after))
            ==> {
            &&& object.remote is Some
            &&& known matches Some(before) ==> after == count && object.id == before.id && (!changed
                ==> object == before)
            &&& known is None ==> changed && after == count + 1 && object.id == id
                && object.scope == scope && count < 10_000
        },
{
}

/// The file that is replaced loses its name, and its stream with it; the stream stays for those
/// that read it, one state further.
pub proof fn replaced_files_lose_their_name(
    journal: JournalView,
    victim: NamespaceObject,
    working: Option<WorkingFile>,
    other: Id,
)
    ensures
        victim_released(journal, victim, working) matches Ok(after) ==> {
            &&& after.objects.contains_key(victim.id)
            &&& after.objects[victim.id].unlinked
            &&& after.objects[victim.id].revision == victim.revision + 1
            &&& after.objects[victim.id].node == victim.node
            &&& after.objects[victim.id].remote == victim.remote
            &&& working matches Some(file) ==> {
                &&& after.working.contains_key(file.id)
                &&& after.working[file.id].unlinked
                &&& after.working[file.id].generation == file.generation + 1
                &&& after.working[file.id].node == file.node
                &&& after.working[file.id].dirty == file.dirty
            }
            &&& working is None ==> after.working == journal.working
            &&& other != victim.id ==> after.objects.contains_key(other)
                == journal.objects.contains_key(other) && (after.objects.contains_key(other)
                ==> after.objects[other] == journal.objects[other])
        },
{
}

/// The file that replaces another takes its name and its place at once, with its stream, and its
/// latest operation is the upload.
pub proof fn replacing_files_take_the_name(
    journal: JournalView,
    source: NamespaceObject,
    working: Option<WorkingFile>,
    victim: NamespaceObject,
    upload: Id,
)
    ensures
        source_renamed(journal, source, working, victim, upload) matches Ok(after) ==> {
            let shown = after.objects[source.id];
            &&& after.objects.contains_key(source.id)
            &&& shown.node.name == victim.node.name
            &&& shown.node.parent_id == victim.node.parent_id
            &&& shown.latest == Some(upload)
            &&& shown.revision == source.revision + 1
            &&& shown.remote == source.remote && shown.remote_owned == source.remote_owned
            &&& after.operations.contains_key(upload) && after.operations[upload] == source.id
            &&& working is None ==> shown.node.id == source.node.id && after.working
                == journal.working
            &&& working matches Some(file) ==> {
                &&& after.working[file.id].node.name == victim.node.name
                &&& after.working[file.id].node.parent_id == victim.node.parent_id
                &&& after.working[file.id].node.id == file.node.id
                &&& after.working[file.id].latest == Some(upload)
                &&& after.working[file.id].generation == file.generation + 1
                &&& shown.node == after.working[file.id].node
            }
        },
{
}

/// The object that will own the source's old item is nameless, owns nothing yet, and has the
/// removal of that item as its operation.
pub proof fn cleanups_own_nothing_yet(
    source: NamespaceObject,
    id: Id,
    identity: String,
    cleanup: Id,
)
    ensures
        ({
            let object = cleanup_object(source, id, identity, cleanup);
            &&& object.id == id && object.node.id == identity
            &&& object.unlinked && !object.remote_owned
            &&& object.latest == Some(cleanup)
            &&& object.working_file is None
            &&& object.revision == 0
            &&& object.scope == source.scope && object.remote == source.remote
        }),
{
}

/// A replacement is recorded with both of its files, its upload and the removal behind it. It
/// has not reached the provider, and it waits for its readers exactly where they are to be
/// preserved.
pub proof fn replacements_are_recorded_as_begun(
    journal: JournalView,
    plan: ReplacementPlan,
    cleanup_base: Option<WriteBase>,
    preserve: bool,
    upload: UploadRecord,
    ids: ReplacementIds,
    identity: String,
)
    ensures
        replacement_committed(journal, plan, cleanup_base, preserve, upload, ids, identity)
            matches Ok((after, record)) ==> {
            &&& record.id == upload.id
            &&& record.source == journal.objects[plan.source.id].id
            &&& record.victim == journal.objects[plan.victim.id].id
            &&& record.cleanup == ids.cleanup && record.cleanup_object == ids.object
            &&& record.local_ready <==> !preserve
            &&& !record.remote_applied
            &&& after.replacements.contains_key(upload.id)
            &&& after.replacements[upload.id] == record
        },
{
}

/// An object that follows the provider is shown again from what was fetched, under its own
/// identity and the provider's name, and follows no longer; any other object stays as it is.
pub proof fn fetched_files_are_shown_again(
    journal: JournalView,
    object: NamespaceObject,
    source: Node,
)
    ensures
        !object.follows_remote ==> presented(journal, object, Some(source)) == Ok::<
            NamespaceObject,
            JournalError,
        >(object) && presented(journal, object, None) == Ok::<NamespaceObject, JournalError>(object),
        object.follows_remote ==> presented(journal, object, None) == Err::<
            NamespaceObject,
            JournalError,
        >(JournalError::Stale),
        object.follows_remote ==> (presented(journal, object, Some(source)) matches Ok(shown) ==> {
            &&& !shown.follows_remote
            &&& shown.remote == Some(source)
            &&& shown.id == object.id && shown.latest is None
            &&& source.kind == object.node.kind && source.target is None
        }),
{
}

/// A destination becomes the folder that the provider made: the one in the receipt of its
/// creation, where that belongs to the folder and came before, or else the one that the folder
/// has. Only a real folder counts.
pub proof fn destinations_become_made_folders(
    journal: JournalView,
    destination: Destination,
    operation: Operation,
)
    ensures
        arrived(journal, destination, operation) matches Ok(Some(node)) ==> node.kind
            == NodeKind::Folder && node.target is None && node.id@.len() > 0,
        destination.predecessor is None && journal.objects[destination.parent].remote is None
            ==> arrived(journal, destination, operation) == Ok::<Option<Node>, JournalError>(None),
        destination.predecessor is None && journal.objects[destination.parent].remote is Some ==> {
            let node = journal.objects[destination.parent].remote->0;
            node.kind == NodeKind::Folder && node.target is None && node.id@.len() > 0 ==> arrived(
                journal,
                destination,
                operation,
            ) == Ok::<Option<Node>, JournalError>(Some(node))
        },
        destination.predecessor matches Some(before) ==> {
            &&& find(journal, before) is None ==> arrived(journal, destination, operation) == Err::<
                Option<Node>,
                JournalError,
            >(JournalError::Missing)
            &&& arrived(journal, destination, operation) matches Ok(Some(node)) ==> {
                &&& journal.operations.contains_key(before)
                &&& journal.operations[before] == destination.parent
                &&& confirmed_of(find(journal, before)->0) == Some(node)
                &&& place_of(find(journal, before)->0) < place_of(operation)
                &&& scope_of(find(journal, before)->0) == scope_of(operation)
            }
        },
{
}

/// A captured source is recorded only whole and within the quota, under the digest that its
/// bytes have, and a second capture must be of the same bytes.
pub proof fn captures_fit_the_quota(
    journal: JournalView,
    id: Id,
    attempt: Id,
    source: WorkingSource,
    own: bool,
    existing: Option<Seq<char>>,
    usage: Usage,
    digest: String,
)
    ensures
        capture_recorded(journal, id, attempt, source, own, existing, usage, digest) is Ok ==> {
            &&& own && source.written == source.size
            &&& existing is None ==> usage.files < 10_000 && (source.size == 0 || usage.bytes
                + source.size <= journal.quota)
            &&& existing is Some ==> existing->0 == digest@
        },
        capture_recorded(journal, id, attempt, source, own, existing, usage, digest) matches Ok(
            after,
        ) ==> {
            &&& after.preparations.contains_key(id)
            &&& after.preparations[id].sha256 is Some
            &&& after.preparations[id].sha256->0@ == digest@
            &&& after.uploads == journal.uploads && after.objects == journal.objects
        },
{
}

/// An object is saved only where it can be: below a parent, under the name rules of its scope,
/// named or without an item of its own, and while changes can be counted. It counts as changed
/// then, and as what its latest operation acts on.
pub proof fn saved_objects_count_as_changed(journal: JournalView, object: NamespaceObject)
    ensures
        save_step(journal, object) matches Ok(after) ==> {
            &&& object.node.parent_id is Some
            &&& object.remote_owned || object.unlinked
            &&& object.follows_remote ==> !object.unlinked && object.working_file is None
                && object.latest is None && object.remote is Some
            &&& journal.clock < 0x7fff_ffff_ffff_ffff
            &&& !remote_taken(journal, object)
            &&& after.clock == journal.clock + 1
            &&& after.changes[object.id] == after.clock
            &&& after.objects[object.id] == object
            &&& object.latest matches Some(latest) ==> after.operations[latest] == object.id
        },
        journal.clock >= 0x7fff_ffff_ffff_ffff ==> save_step(journal, object) is Err,
{
}

} // verus!
