//! What changes of names promise: what is removed, renamed, created or replaced locally is
//! so at once, and the provider is asked for exactly the same.
use crate::journal::chains::{changes_are_queued_as_given, provider_gave, room_for};
use crate::journal::directories::{
    destination_resolved, directory_created, directory_removed, has_children,
};
use crate::journal::handoff::handed_off;
use crate::journal::mutations::{new_mutation, next_mutation};
use crate::journal::namespace::{apart, consistent, rule, save_step};
use crate::journal::queue::barrier_refusal;
use crate::journal::records::{
    JournalError, JournalView, MutationRecord, MutationState, NamespaceNames, NamespaceObject,
    UploadRecord, UploadState, WorkingFile, WriteBase,
};
use crate::journal::unlinked::{file_unlinked, readers_released};
use crate::journal::working::{file_relocated, relocating, relocating_file, relocation_refusal};
use crate::journal::sealing::{Sealed, Usage};
use crate::model::{Id, MutationIntent, MutationRequest, Node, NodeKind, Scope, UploadIntent};
use vstd::prelude::*;

verus! {

/// The operation that a change of an object follows: the latest one on it.
pub open spec fn behind_latest(object: NamespaceObject) -> Option<WriteBase> {
    match object.latest {
        Some(predecessor) => Some(WriteBase { predecessor, resolved: false }),
        None => None,
    }
}

/// What a removal asks the provider for: the item as the provider confirmed it, or the
/// local node where a receipt is still to come.
pub open spec fn source_of(object: NamespaceObject) -> Node {
    if object.latest is Some {
        object.node
    } else {
        object.remote->0
    }
}

/// Removing a file takes its name away at once and queues one removal of its provider
/// item, behind the latest operation on it. Its stream lives on, and writes to it never
/// become an upload. The removal waits for readers exactly where there are any to keep.
pub proof fn removed_files_lose_their_name(
    journal: JournalView,
    operation: Id,
    id: Id,
    revision: u64,
    preserve: bool,
    valid: bool,
    now: u64,
)
    requires
        file_unlinked(journal, operation, id, revision, preserve, valid) is Ok,
        journal.objects[id].id == id,
    ensures
        ({
            let (after, gone) = file_unlinked(
                journal,
                operation,
                id,
                revision,
                preserve,
                valid,
            )->Ok_0;
            let object = journal.objects[id];
            &&& journal.objects.contains_key(id) && object.revision == revision
            &&& !object.unlinked && !object.follows_remote && object.node.kind == NodeKind::File
            &&& gone.object == (NamespaceObject {
                unlinked: true,
                latest: Some(operation),
                revision: (revision + 1) as u64,
                ..object
            })
            &&& after.objects == journal.objects.insert(id, gone.object)
            &&& gone.mutation.id == operation
            &&& gone.mutation.state == MutationState::Pending
            &&& gone.mutation.request == (MutationRequest {
                scope: object.scope,
                intent: MutationIntent::RemoveFile { before: source_of(object) },
            })
            &&& gone.mutation.base == behind_latest(object)
            &&& gone.mutation.local_ready == !preserve
            &&& after.mutations == journal.mutations.insert(operation, gone.mutation)
            &&& after.uploads == journal.uploads
            &&& preserve ==> !next_mutation(after, now, operation)
            &&& object.working_file is None ==> gone.working is None && after.working
                == journal.working
            &&& object.working_file is Some ==> {
                let stream = journal.working[object.working_file->0];
                &&& journal.working.contains_key(object.working_file->0)
                &&& !stream.dirty
                &&& gone.working == Some(
                    WorkingFile {
                        unlinked: true,
                        latest: Some(operation),
                        generation: (stream.generation + 1) as u64,
                        ..stream
                    },
                )
                &&& after.working == journal.working.insert(
                    object.working_file->0,
                    gone.working->0,
                )
            }
        }),
{
    let object = journal.objects[id];
    changes_are_queued_as_given(
        journal,
        new_mutation(
            operation,
            MutationRequest {
                scope: object.scope,
                intent: MutationIntent::RemoveFile { before: source_of(object) },
            },
            behind_latest(object),
            object.working_file,
            !preserve,
        ),
        Seq::empty(),
    );
}

/// A file of the provider that nobody has changed can be removed.
pub proof fn unchanged_files_can_be_removed(
    journal: JournalView,
    operation: Id,
    id: Id,
    preserve: bool,
)
    requires
        consistent(journal),
        journal.objects.contains_key(id),
        journal.objects[id].scope.account@ == journal.account,
        !journal.objects[id].unlinked,
        !journal.objects[id].follows_remote,
        journal.objects[id].node.kind == NodeKind::File,
        journal.objects[id].node.target is None,
        journal.objects[id].node.parent_id is Some,
        journal.objects[id].latest is None,
        journal.objects[id].working_file is None,
        journal.objects[id].remote is Some,
        journal.objects[id].remote_owned,
        journal.objects[id].remote->0.parent_id is Some,
        journal.objects[id].revision < u64::MAX,
        rule(journal, journal.objects[id].scope@) == Ok::<NamespaceNames, JournalError>(
            journal.objects[id].names,
        ),
        room_for(journal, operation),
        !journal.operations.contains_key(operation),
        journal.clock < 0x7fff_ffff_ffff_ffff,
    ensures
        file_unlinked(journal, operation, id, journal.objects[id].revision, preserve, true) is Ok,
{
    let object = journal.objects[id];
    let raw = new_mutation(
        operation,
        MutationRequest {
            scope: object.scope,
            intent: MutationIntent::RemoveFile { before: source_of(object) },
        },
        None,
        None,
        !preserve,
    );
    changes_are_queued_as_given(journal, raw, Seq::empty());
    assert(barrier_refusal(journal, object.scope@, Seq::<Id>::empty()) is None);
    let queued = crate::journal::mutations::mutation_queued(journal, raw, Seq::empty())->Ok_0.0;
    let gone = NamespaceObject {
        unlinked: true,
        latest: Some(operation),
        revision: (object.revision + 1) as u64,
        ..object
    };
    assert forall|other: Id| #[trigger]
        queued.objects.contains_key(other) && other != id implies apart(
        queued.objects[other],
        object,
    ) by {
        assert(journal.objects.contains_key(other));
        assert(journal.objects.contains_key(id));
    }
    assert(rule(queued, gone.scope@) == Ok::<NamespaceNames, JournalError>(gone.names));
    assert(save_step(queued, gone) is Ok);
}

/// Releasing the readers of a removal lets it go on and changes nothing else; it is
/// possible for a removal that waits.
pub proof fn released_removals_go_on(journal: JournalView, id: Id)
    requires
        journal.mutations.contains_key(id),
        journal.mutations[id].id == id,
        journal.queue.contains_key(id),
        !journal.queue[id].complete,
    ensures
        match readers_released(journal, id) {
            Ok(after) => after.mutations == journal.mutations.insert(
                id,
                MutationRecord { local_ready: true, ..journal.mutations[id] },
            ) && after.uploads == journal.uploads && after.objects == journal.objects
                && after.queue == journal.queue,
            Err(_) => true,
        },
        (!journal.mutations[id].local_ready && journal.mutations[id].state == MutationState::Pending
            && journal.mutations[id].request.intent is RemoveFile && journal.operations.contains_key(
            id,
        ) && journal.objects.contains_key(journal.operations[id])
            && journal.objects[journal.operations[id]].unlinked
            && journal.objects[journal.operations[id]].latest == Some(id)) ==> readers_released(
            journal,
            id,
        ) is Ok,
{
    if let Ok(after) = readers_released(journal, id) {
        assert(after.queue =~= journal.queue);
        assert(after.mutations =~= journal.mutations.insert(
            id,
            MutationRecord { local_ready: true, ..journal.mutations[id] },
        ));
    }
}

/// Renaming a file without local bytes shows it under its new name at once and queues one
/// rename of its provider item, behind the latest operation on it. Its identity and what
/// is known of the provider stay.
pub proof fn renamed_files_move_at_once(
    journal: JournalView,
    operation: Id,
    id: Id,
    parent: String,
    name: String,
    valid: bool,
)
    requires
        file_relocated(journal, operation, id, parent, name, valid) is Ok,
        journal.objects.contains_key(id),
        journal.objects[id].id == id,
    ensures
        ({
            let (after, record) = file_relocated(
                journal,
                operation,
                id,
                parent,
                name,
                valid,
            )->Ok_0;
            let object = journal.objects[id];
            &&& after.objects == journal.objects.insert(
                id,
                NamespaceObject {
                    node: Node { parent_id: Some(parent), name, ..object.node },
                    latest: Some(operation),
                    revision: (object.revision + 1) as u64,
                    ..object
                },
            )
            &&& record.id == operation && record.state == MutationState::Pending
            &&& object.remote is Some
            &&& record.request == (MutationRequest {
                scope: object.scope,
                intent: MutationIntent::Relocate { before: object.remote->0, parent, name },
            })
            &&& record.base == behind_latest(object)
            &&& record.local_ready
            &&& after.mutations == journal.mutations.insert(operation, record)
            &&& after.uploads == journal.uploads
            &&& after.working == journal.working
        }),
{
    let object = journal.objects[id];
    changes_are_queued_as_given(
        journal,
        new_mutation(
            operation,
            MutationRequest {
                scope: object.scope,
                intent: MutationIntent::Relocate { before: object.remote->0, parent, name },
            },
            behind_latest(object),
            None,
            true,
        ),
        Seq::empty(),
    );
}

/// Renaming a file works on the file that the caller saw: one that has changed, lost its
/// name, or belongs to the provider is refused. A file with local bytes moves with them.
pub proof fn renames_need_the_file_that_was_seen(
    journal: JournalView,
    upload: Id,
    operation: Id,
    id: Id,
    revision: u64,
    parent: String,
    name: String,
    named: bool,
    savable: bool,
    usage: Usage,
    sealed: Sealed,
    valid: bool,
    result: Result<MutationRecord, JournalError>,
    after: JournalView,
)
    requires
        relocating_file(
            journal,
            upload,
            operation,
            id,
            revision,
            parent,
            name,
            named,
            savable,
            usage,
            sealed,
            valid,
            result,
            after,
        ),
    ensures
        result is Ok ==> {
            let object = journal.objects[id];
            &&& journal.objects.contains_key(id)
            &&& object.revision == revision && !object.follows_remote && !object.unlinked
            &&& object.node.kind == NodeKind::File
            &&& object.working_file is Some ==> relocating(
                journal,
                upload,
                operation,
                object.working_file->0,
                parent,
                name,
                named,
                savable,
                usage,
                sealed,
                valid,
                result,
                after,
            )
            &&& object.working_file is None ==> file_relocated(
                journal,
                operation,
                id,
                parent,
                name,
                valid,
            ) == Ok::<(JournalView, MutationRecord), JournalError>((after, result->Ok_0))
        },
        result is Err && journal.objects.contains_key(id) && journal.objects[id].working_file
            is None ==> after == journal,
        relocation_refusal(journal, id, revision) is None <==> {
            &&& journal.objects.contains_key(id)
            &&& journal.objects[id].revision == revision
            &&& !journal.objects[id].follows_remote
            &&& !journal.objects[id].unlinked
            &&& journal.objects[id].node.kind == NodeKind::File
        },
{
}

/// A new folder is shown at once, empty and under its own identity, and one creation of it
/// is queued below the same parent and under the same name.
pub proof fn new_folders_are_created(
    journal: JournalView,
    id: Id,
    operation: Id,
    identity: String,
    now: u64,
    scope: Scope,
    parent: String,
    name: String,
    valid: bool,
)
    ensures
        match directory_created(
            journal,
            id,
            operation,
            identity,
            now,
            scope,
            parent,
            name,
            valid,
        ) {
            Ok((after, folder)) => {
                &&& valid && scope.account@ == journal.account
                &&& folder.id == id && folder.scope == scope
                &&& folder.node.id == identity && folder.node.name == name && folder.node.parent_id
                    == Some(parent)
                &&& folder.node.kind == NodeKind::Folder && folder.node.target is None
                    && folder.node.size == 0 && folder.node.modified_unix == now
                &&& folder.remote is None && folder.latest == Some(operation)
                &&& !folder.unlinked && !folder.follows_remote && folder.remote_owned
                &&& folder.working_file is None
                &&& after.objects == journal.objects.insert(id, folder)
                &&& after.mutations.contains_key(operation)
                &&& after.mutations == journal.mutations.insert(
                    operation,
                    after.mutations[operation],
                )
                &&& after.mutations[operation].state == MutationState::Pending
                &&& after.mutations[operation].request == (MutationRequest {
                    scope,
                    intent: MutationIntent::CreateFolder { parent, name },
                })
                &&& after.mutations[operation].base is None
                &&& after.uploads == journal.uploads && after.working == journal.working
            },
            Err(_) => true,
        },
{
    changes_are_queued_as_given(
        journal,
        new_mutation(
            operation,
            MutationRequest { scope, intent: MutationIntent::CreateFolder { parent, name } },
            None,
            None,
            true,
        ),
        Seq::empty(),
    );
}

/// Removing a folder takes its name away at once and queues one removal of its provider
/// item, behind the latest operation on it. A folder with something local below it is not
/// removed.
pub proof fn removed_folders_lose_their_name(
    journal: JournalView,
    operation: Id,
    id: Id,
    revision: u64,
    valid: bool,
)
    requires
        journal.objects.contains_key(id) ==> journal.objects[id].id == id,
    ensures
        match directory_removed(journal, operation, id, revision, valid) {
            Ok((after, gone)) => {
                let object = journal.objects[id];
                &&& journal.objects.contains_key(id) && object.revision == revision
                &&& !object.unlinked && !object.follows_remote && object.node.kind
                    == NodeKind::Folder
                &&& forall|child: Id| #[trigger]
                    journal.objects.contains_key(child) && child != id
                        && journal.objects[child].id == child && !journal.objects[child].unlinked
                        && journal.objects[child].scope@ == object.scope@ ==> !(
                    journal.objects[child].node.parent_id is Some
                        && journal.objects[child].node.parent_id->0@ == object.node.id@)
                &&& gone.object == (NamespaceObject {
                    unlinked: true,
                    latest: Some(operation),
                    revision: (revision + 1) as u64,
                    ..object
                })
                &&& after.objects == journal.objects.insert(id, gone.object)
                &&& gone.mutation.id == operation && gone.mutation.state == MutationState::Pending
                &&& gone.mutation.request == (MutationRequest {
                    scope: object.scope,
                    intent: MutationIntent::RemoveFolder { before: source_of(object) },
                })
                &&& gone.mutation.base == behind_latest(object)
                &&& gone.mutation.local_ready
                &&& after.mutations == journal.mutations.insert(operation, gone.mutation)
                &&& after.uploads == journal.uploads && after.working == journal.working
            },
            Err(_) => true,
        },
{
    let object = journal.objects[id];
    if directory_removed(journal, operation, id, revision, valid) is Ok {
        changes_are_queued_as_given(
            journal,
            new_mutation(
                operation,
                MutationRequest {
                    scope: object.scope,
                    intent: MutationIntent::RemoveFolder { before: source_of(object) },
                },
                behind_latest(object),
                None,
                true,
            ),
            Seq::empty(),
        );
        assert(!has_children(journal, object));
    }
}

/// What leads into a local folder is asked for in the folder that the provider made of it:
/// the parent in the request becomes the identity in the folder's receipt, or the one that
/// the provider had all along, and the name stays. Without such a folder the operation
/// fails. No other operation changes.
pub proof fn destinations_become_provider_folders(journal: JournalView, id: Id, folder: Node)
    requires
        destination_resolved(journal, id) is Ok,
        // The folder as the provider has it.
        match journal.destinations[id].predecessor {
            Some(before) => provider_gave(journal, before, folder),
            None => journal.objects[journal.destinations[id].parent].remote == Some(folder),
        },
    ensures
        ({
            let after = destination_resolved(journal, id)->Ok_0;
            &&& after.destinations[id].resolved
            &&& !journal.destinations[id].resolved
            &&& after.queue == journal.queue && after.objects == journal.objects
            &&& journal.uploads.contains_key(id) ==> {
                let before = journal.uploads[id];
                let now = after.uploads[id];
                &&& after.uploads == journal.uploads.insert(id, now)
                &&& after.mutations == journal.mutations
                &&& before.intent is Create
                &&& now.state == UploadState::Failed || (now == (UploadRecord {
                    intent: UploadIntent::Create {
                        parent: folder.id,
                        name: before.intent->Create_name,
                    },
                    ..before
                }) && folder.kind == NodeKind::Folder)
            }
            &&& !journal.uploads.contains_key(id) ==> {
                let before = journal.mutations[id];
                let now = after.mutations[id];
                &&& after.mutations == journal.mutations.insert(id, now)
                &&& after.uploads == journal.uploads
                &&& now.state == MutationState::Failed || (folder.kind == NodeKind::Folder
                    && match before.request.intent {
                    MutationIntent::CreateFolder { name, .. } => now == (MutationRecord {
                        request: MutationRequest {
                            intent: MutationIntent::CreateFolder { parent: folder.id, name },
                            ..before.request
                        },
                        ..before
                    }),
                    MutationIntent::Relocate { before: source, name, .. } => now == (
                    MutationRecord {
                        request: MutationRequest {
                            intent: MutationIntent::Relocate {
                                before: source,
                                parent: folder.id,
                                name,
                            },
                            ..before.request
                        },
                        ..before
                    }),
                    _ => false,
                })
            }
        }),
        // A plain folder of the provider is good enough.
        (journal.destinations[id].predecessor is None && folder.kind == NodeKind::Folder
            && folder.target is None && folder.id@.len() > 0 && journal.uploads.contains_key(id))
            ==> destination_resolved(journal, id)->Ok_0.uploads[id].state
            == journal.uploads[id].state,
{
}

/// An object goes back to the provider's metadata only when everything on it is confirmed
/// and its stream holds nothing new. It keeps its local identity, is shown as the provider
/// has it, and its stream is given up.
pub proof fn handed_off_objects_follow_the_provider(
    journal: JournalView,
    id: Id,
    revision: u64,
    remote: Node,
    valid: bool,
)
    requires
        handed_off(journal, id, revision, remote, valid) is Ok,
        journal.objects[id].id == id,
    ensures
        ({
            let (after, object) = handed_off(journal, id, revision, remote, valid)->Ok_0;
            let before = journal.objects[id];
            &&& journal.objects.contains_key(id) && before.revision == revision
            &&& !before.unlinked && !before.follows_remote && before.remote_owned
            &&& before.remote is Some && before.remote->0.id@ == remote.id@
            &&& forall|operation: Id| #[trigger]
                journal.operations.contains_key(operation) && journal.operations[operation] == id
                    ==> if journal.uploads.contains_key(operation) {
                    journal.uploads[operation].state == UploadState::Uploaded
                } else {
                    journal.mutations.contains_key(operation) && journal.mutations[operation].state
                        == MutationState::Applied
                }
            &&& object.follows_remote && object.latest is None && object.working_file is None
            &&& object.remote == Some(remote)
            &&& object.node.id == before.node.id
            &&& object.node.name == remote.name && object.node.size == remote.size
                && object.node.etag == remote.etag && object.node.content_version
                == remote.content_version && object.node.kind == remote.kind
            &&& object.revision == revision + 1
            &&& after.objects == journal.objects.insert(id, object)
            &&& after.uploads == journal.uploads && after.mutations == journal.mutations
            &&& before.working_file is None ==> after.working == journal.working && after.retired
                == journal.retired
            &&& before.working_file is Some ==> {
                let stream = before.working_file->0;
                &&& !journal.working[stream].dirty
                &&& after.working == journal.working.remove(stream)
                &&& after.retired == journal.retired.insert(stream, true)
            }
        }),
{
    let (after, object) = handed_off(journal, id, revision, remote, valid)->Ok_0;
    let before = journal.objects[id];
    assert forall|operation: Id| #[trigger]
        journal.operations.contains_key(operation) && journal.operations[operation] == id implies if journal.uploads.contains_key(
        operation,
    ) {
        journal.uploads[operation].state == UploadState::Uploaded
    } else {
        journal.mutations.contains_key(operation) && journal.mutations[operation].state
            == MutationState::Applied
    } by {
        assert(crate::journal::handoff::is_confirmed(journal, operation));
    }
}

} // verus!
