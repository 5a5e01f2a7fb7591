//! What chained edits promise: a later edit acts on what the provider confirmed of the
//! one before it, and waits for it.
use crate::journal::generations::{
    follows, mutation_resolved, planned_intent, planned_request, previewed, upload_resolved,
};
use crate::journal::laws::{
    a_mutation_is_stored_as_given, an_upload_is_stored_as_given, flags_agree,
};
use crate::journal::mutations::{
    mutation_acknowledged, mutation_queued, new_mutation, next_mutation, request_following,
};
use crate::journal::namespace::local_object;
use crate::journal::queue::{barrier_refusal, bound, item_key, slot_key};
use crate::journal::records::{
    JournalError, JournalView, MutationRecord, MutationState, QueueRow, UploadRecord, UploadState,
    WriteBase,
};
use crate::journal::sealing::{Sealed, Usage};
use crate::journal::tables::ResourceView;
use crate::journal::uploads::{
    following, new_upload, next_upload, upload_acknowledged, upload_queued,
};
use crate::model::{
    Id, MutationIntent, MutationReceipt, MutationRequest, Node, NodeKind, Scope, ScopeView,
    UploadIntent,
};
use vstd::prelude::*;

verus! {

/// The provider confirmed that an operation left this node behind.
pub open spec fn provider_gave(journal: JournalView, id: Id, node: Node) -> bool {
    if journal.uploads.contains_key(id) {
        journal.uploads[id].state == UploadState::Uploaded && journal.uploads[id].remote == Some(
            node,
        )
    } else {
        journal.mutations.contains_key(id) && journal.mutations[id].state == MutationState::Applied
            && journal.mutations[id].receipt == Some(MutationReceipt::Upsert(node))
    }
}

/// An operation of a scope stands before a place.
pub open spec fn goes_before(journal: JournalView, id: Id, scope: Scope, place: u64) -> bool {
    if journal.uploads.contains_key(id) {
        journal.uploads[id].scope@ == scope@ && journal.uploads[id].sequence < place
    } else {
        journal.mutations.contains_key(id) && journal.mutations[id].request.scope@ == scope@
            && journal.mutations[id].sequence < place
    }
}

/// A change keeps its kind, its destination and its scope, and starts from this node.
pub open spec fn starts_from(stored: MutationRequest, asked: MutationRequest, node: Node) -> bool {
    &&& asked.scope == stored.scope
    &&& match stored.intent {
        MutationIntent::Relocate { before, parent, name } => before.kind == node.kind
            && asked.intent == (MutationIntent::Relocate { before: node, parent, name }),
        MutationIntent::RemoveFile { before } => before.kind == node.kind && asked.intent == (
        MutationIntent::RemoveFile { before: node }),
        MutationIntent::RemoveFolder { before } => before.kind == node.kind && asked.intent == (
        MutationIntent::RemoveFolder { before: node }),
        MutationIntent::CreateFolder { .. } => false,
    }
}

/// A chained change asks the provider for its own item: the source of a move or a removal
/// is the node in the receipt of the operation before it, with the identity, the tag and
/// the content version that the provider confirmed. Scope, destination and new name are
/// those that were stored. Nothing else is ever asked, and it is asked whenever the
/// receipt fits.
pub proof fn changes_act_on_the_confirmed_source(journal: JournalView, id: Id, node: Node)
    requires
        journal.mutations.contains_key(id),
        journal.mutations[id].base is Some,
        provider_gave(journal, journal.mutations[id].base->0.predecessor, node),
    ensures
        planned_request(journal, id) is Ok,
        planned_request(journal, id) matches Ok(Some(request)) ==> starts_from(
            journal.mutations[id].request,
            request,
            node,
        ) && node.target is None,
        planned_request(journal, id) == Ok::<Option<MutationRequest>, JournalError>(None) ==> {
            ||| node.target is Some
            ||| journal.mutations[id].request.intent is CreateFolder
            ||| !goes_before(
                journal,
                journal.mutations[id].base->0.predecessor,
                journal.mutations[id].request.scope,
                journal.mutations[id].sequence,
            )
            ||| match journal.mutations[id].request.intent {
                MutationIntent::Relocate { before, .. } => before.kind != node.kind,
                MutationIntent::RemoveFile { before } => before.kind != node.kind,
                MutationIntent::RemoveFolder { before } => before.kind != node.kind,
                MutationIntent::CreateFolder { .. } => true,
            }
        },
{
}

/// A chained save replaces the provider's own item under the confirmed tag: its target is
/// the node in the receipt of the operation before it.
pub proof fn saves_replace_the_confirmed_version(journal: JournalView, id: Id, node: Node)
    requires
        journal.uploads.contains_key(id),
        journal.uploads[id].base is Some,
        provider_gave(journal, journal.uploads[id].base->0.predecessor, node),
    ensures
        planned_intent(journal, id) is Ok,
        planned_intent(journal, id) matches Ok(Some(intent)) ==> {
            &&& node.kind == NodeKind::File
            &&& node.target is None
            &&& node.etag is Some
            &&& intent == (UploadIntent::Replace { item: node.id, expected_etag: node.etag->0 })
        },
        planned_intent(journal, id) == Ok::<Option<UploadIntent>, JournalError>(None) ==> {
            ||| node.kind != NodeKind::File
            ||| node.target is Some
            ||| node.etag is None
            ||| !goes_before(
                journal,
                journal.uploads[id].base->0.predecessor,
                journal.uploads[id].scope,
                journal.uploads[id].sequence,
            )
        },
{
}

/// Without a receipt nothing is asked: an edit whose predecessor is not confirmed gets no
/// plan, and one without a predecessor has none to get.
pub proof fn nothing_is_planned_without_a_receipt(journal: JournalView, id: Id)
    ensures
        planned_request(journal, id) matches Ok(Some(request)) ==> {
            &&& journal.mutations.contains_key(id)
            &&& journal.mutations[id].base is Some
            &&& exists|node: Node| #[trigger]
                provider_gave(journal, journal.mutations[id].base->0.predecessor, node)
        },
        planned_intent(journal, id) matches Ok(Some(intent)) ==> {
            &&& journal.uploads.contains_key(id)
            &&& journal.uploads[id].base is Some
            &&& exists|node: Node| #[trigger]
                provider_gave(journal, journal.uploads[id].base->0.predecessor, node)
        },
{
    if let Ok(Some(request)) = planned_request(journal, id) {
        let p = journal.mutations[id].base->0.predecessor;
        if journal.uploads.contains_key(p) {
            assert(provider_gave(journal, p, journal.uploads[p].remote->0));
        } else {
            assert(provider_gave(journal, p, journal.mutations[p].receipt->0->Upsert_0));
        }
    }
    if let Ok(Some(intent)) = planned_intent(journal, id) {
        let p = journal.uploads[id].base->0.predecessor;
        if journal.uploads.contains_key(p) {
            assert(provider_gave(journal, p, journal.uploads[p].remote->0));
        } else {
            assert(provider_gave(journal, p, journal.mutations[p].receipt->0->Upsert_0));
        }
    }
}

/// Binding an edit stores what was planned and nothing else: it becomes bound exactly
/// where there was a plan and the verdict on it was good, and fails otherwise. It claims
/// what the plan touches, and no other operation changes.
pub proof fn edits_are_bound_to_their_plan(journal: JournalView, id: Id, valid: bool)
    ensures
        match (planned_request(journal, id), mutation_resolved(journal, id, valid)) {
            (Ok(plan), Ok(after)) => {
                let before = journal.mutations[id];
                let bound = after.mutations[before.id];
                &&& after.uploads == journal.uploads
                &&& plan is Some && valid ==> {
                    &&& after.mutations == journal.mutations.insert(id, after.mutations[id])
                    &&& after.mutations[id].request == plan->0
                    &&& after.mutations[id].base == Some(
                        WriteBase { predecessor: before.base->0.predecessor, resolved: true },
                    )
                    &&& after.mutations[id].state == before.state
                    &&& after.mutations[id].sequence == before.sequence
                    &&& after.mutations[id].local_ready == before.local_ready
                    &&& after.queue == journal.queue
                    &&& journal.resources.subset_of(after.resources)
                    &&& plan->0.intent matches MutationIntent::Relocate { before, parent, name }
                        ==> after.resources.contains(
                        (id, item_key(plan->0.scope@, before.id@)),
                    ) && after.resources.contains(
                        (id, slot_key(plan->0.scope@, parent@, name@)),
                    )
                    &&& plan->0.intent matches MutationIntent::RemoveFile { before }
                        ==> after.resources.contains((id, item_key(plan->0.scope@, before.id@)))
                    &&& plan->0.intent matches MutationIntent::RemoveFolder { before }
                        ==> after.resources.contains((id, item_key(plan->0.scope@, before.id@)))
                }
                &&& plan is None || !valid ==> {
                    &&& bound.state == MutationState::Failed
                    &&& bound.base == before.base
                    &&& bound.sequence == before.sequence
                    &&& !after.queue[before.id].complete
                }
            },
            (Err(wanted), Err(error)) => wanted == error,
            (Err(_), Ok(_)) => false,
            (Ok(_), Err(_)) => true,
        },
        match (planned_intent(journal, id), upload_resolved(journal, id, valid)) {
            (Ok(plan), Ok(after)) => {
                let before = journal.uploads[id];
                let bound = after.uploads[before.id];
                &&& after.mutations == journal.mutations
                &&& plan is Some && valid ==> {
                    &&& after.uploads == journal.uploads.insert(id, after.uploads[id])
                    &&& after.uploads[id].intent == plan->0
                    &&& after.uploads[id].base == Some(
                        WriteBase { predecessor: before.base->0.predecessor, resolved: true },
                    )
                    &&& after.uploads[id].state == before.state
                    &&& after.uploads[id].size == before.size
                    &&& after.uploads[id].sha256 == before.sha256
                    &&& after.uploads[id].sequence == before.sequence
                    &&& after.queue == journal.queue
                    &&& journal.resources.subset_of(after.resources)
                    &&& plan->0 matches UploadIntent::Replace { item, .. }
                        ==> after.resources.contains((id, item_key(before.scope@, item@)))
                }
                &&& plan is None || !valid ==> {
                    &&& bound.state == UploadState::Failed
                    &&& bound.base == before.base
                    &&& bound.sha256 == before.sha256
                    &&& !after.queue[before.id].complete
                }
            },
            (Err(wanted), Err(error)) => wanted == error,
            (Err(_), Ok(_)) => false,
            (Ok(_), Err(_)) => true,
        },
{
    if journal.mutations.contains_key(id) {
        let record = journal.mutations[id];
        a_mutation_is_stored_as_given(
            journal,
            MutationRecord { state: MutationState::Failed, ..record },
        );
        if let Ok(Some(request)) = planned_request(journal, id) {
            a_mutation_is_stored_as_given(
                journal,
                MutationRecord { state: MutationState::Failed, request, ..record },
            );
        }
    }
    if journal.uploads.contains_key(id) {
        an_upload_is_stored_as_given(
            journal,
            UploadRecord { state: UploadState::Failed, ..journal.uploads[id] },
        );
    }
}

/// A change of a node of this kind follows an operation of its scope and of an earlier
/// place.
pub open spec fn change_behind(journal: JournalView, later: Id, earlier: Id, kind: NodeKind) -> bool {
    &&& journal.mutations.contains_key(later)
    &&& journal.mutations[later].base is Some
    &&& journal.mutations[later].base->0.predecessor == earlier
    &&& goes_before(
        journal,
        earlier,
        journal.mutations[later].request.scope,
        journal.mutations[later].sequence,
    )
    &&& match journal.mutations[later].request.intent {
        MutationIntent::Relocate { before, .. } => before.kind == kind,
        MutationIntent::RemoveFile { before } => before.kind == kind,
        MutationIntent::RemoveFolder { before } => before.kind == kind,
        MutationIntent::CreateFolder { .. } => false,
    }
}

/// A save follows an operation of its scope and of an earlier place.
pub open spec fn save_behind(journal: JournalView, later: Id, earlier: Id) -> bool {
    &&& journal.uploads.contains_key(later)
    &&& journal.uploads[later].base is Some
    &&& journal.uploads[later].base->0.predecessor == earlier
    &&& goes_before(
        journal,
        earlier,
        journal.uploads[later].scope,
        journal.uploads[later].sequence,
    )
}

/// The provider is asked for a change of this node.
pub open spec fn asks_for(journal: JournalView, later: Id, node: Node) -> bool {
    match planned_request(journal, later) {
        Ok(Some(request)) => starts_from(journal.mutations[later].request, request, node),
        _ => false,
    }
}

/// A receipt reaches the edit behind it: once an upload is acknowledged with a node, the
/// change that follows it moves or removes exactly that node, and the save that follows it
/// replaces exactly that version.
pub proof fn receipts_reach_the_edits_behind_them(
    journal: JournalView,
    upload: Id,
    attempt: Id,
    node: Node,
    later: Id,
)
    requires
        flags_agree(journal),
        upload_acknowledged(journal, upload, attempt, node) is Ok,
        later != upload,
    ensures
        ({
            let after = upload_acknowledged(journal, upload, attempt, node)->Ok_0;
            &&& provider_gave(after, upload, node)
            &&& change_behind(journal, later, upload, NodeKind::File) ==> asks_for(
                after,
                later,
                node,
            )
            &&& save_behind(journal, later, upload) && node.etag is Some ==> planned_intent(
                after,
                later,
            ) == Ok::<Option<UploadIntent>, JournalError>(
                Some(UploadIntent::Replace { item: node.id, expected_etag: node.etag->0 }),
            )
        }),
{
    let record = journal.uploads[upload];
    an_upload_is_stored_as_given(
        journal,
        UploadRecord {
            remote: Some(node),
            state: UploadState::Uploaded,
            transferred_bytes: record.size,
            attempt: None,
            ..record
        },
    );
}

/// A change that the provider confirmed reaches the edit behind it in the same way.
pub proof fn renames_reach_the_edits_behind_them(
    journal: JournalView,
    change: Id,
    attempt: Id,
    node: Node,
    later: Id,
)
    requires
        flags_agree(journal),
        mutation_acknowledged(journal, change, attempt, MutationReceipt::Upsert(node), true) is Ok,
        mutation_acknowledged(journal, change, attempt, MutationReceipt::Upsert(node), true)->Ok_0.1
            == MutationState::Applied,
        node.target is None,
        later != change,
    ensures
        ({
            let after = mutation_acknowledged(
                journal,
                change,
                attempt,
                MutationReceipt::Upsert(node),
                true,
            )->Ok_0.0;
            &&& provider_gave(after, change, node)
            &&& change_behind(journal, later, change, node.kind) ==> asks_for(after, later, node)
            &&& save_behind(journal, later, change) && node.etag is Some && node.kind
                == NodeKind::File ==> planned_intent(after, later) == Ok::<
                Option<UploadIntent>,
                JournalError,
            >(Some(UploadIntent::Replace { item: node.id, expected_etag: node.etag->0 }))
        }),
{
    let record = journal.mutations[change];
    assert(record.id == change);
    a_mutation_is_stored_as_given(
        journal,
        MutationRecord {
            state: MutationState::Applied,
            receipt: Some(MutationReceipt::Upsert(node)),
            attempt: None,
            ..record
        },
    );
}

/// A queued operation stands behind everything queued before it, waits for exactly what it
/// was given to wait for, and changes nothing else of the journal.
pub open spec fn queued_behind(
    journal: JournalView,
    after: JournalView,
    id: Id,
    base: Option<WriteBase>,
    prerequisites: Seq<Id>,
) -> bool {
    &&& !journal.queue.contains_key(id)
    &&& after.last_sequence == journal.last_sequence + 1
    &&& after.queue == journal.queue.insert(
        id,
        QueueRow { sequence: (journal.last_sequence + 1) as u64, complete: false },
    )
    &&& forall|a: Id, b: Id|
        after.prerequisites.contains((a, b)) <==> journal.prerequisites.contains((a, b)) || (a == id
            && prerequisites.contains(b))
    &&& after.successors == (match base {
        Some(base) => journal.successors.insert(base.predecessor, id),
        None => journal.successors,
    })
    &&& base is Some ==> !journal.successors.contains_key(base->0.predecessor)
        && journal.queue.contains_key(base->0.predecessor)
    &&& forall|i: int|
        0 <= i < prerequisites.len() ==> journal.queue.contains_key(#[trigger] prerequisites[i])
    &&& journal.resources.subset_of(after.resources)
    &&& forall|other: Id, key: ResourceView|
        other != id ==> (after.resources.contains((other, key)) <==> journal.resources.contains(
            (other, key),
        ))
    &&& forall|other: Id| #[trigger]
        after.destinations.contains_key(other) && other != id ==> journal.destinations.contains_key(
            other,
        ) && journal.destinations[other] == after.destinations[other]
    &&& after == (JournalView {
        last_sequence: after.last_sequence,
        queue: after.queue,
        prerequisites: after.prerequisites,
        successors: after.successors,
        resources: after.resources,
        destinations: after.destinations,
        uploads: after.uploads,
        mutations: after.mutations,
        ..journal
    })
}

/// An upload is queued as it was given, at the end of the queue. It claims the item that it
/// replaces, or the name that it creates.
pub proof fn uploads_are_queued_as_given(
    journal: JournalView,
    record: UploadRecord,
    prerequisites: Seq<Id>,
)
    ensures
        match upload_queued(journal, record, prerequisites) {
            Ok((after, stored)) => {
                &&& stored == (UploadRecord {
                    sequence: (journal.last_sequence + 1) as u64,
                    ..record
                })
                &&& after.uploads == journal.uploads.insert(record.id, stored)
                &&& after.mutations == journal.mutations
                &&& !journal.uploads.contains_key(record.id)
                &&& queued_behind(journal, after, record.id, record.base, prerequisites)
                &&& match record.intent {
                    UploadIntent::Create { parent, name } => after.resources.contains(
                        (record.id, slot_key(record.scope@, parent@, name@)),
                    ),
                    UploadIntent::Replace { item, .. } => after.resources.contains(
                        (record.id, item_key(record.scope@, item@)),
                    ),
                }
            },
            Err(_) => true,
        },
{
}

/// A change is queued as it was given, at the end of the queue. It claims the item that it
/// acts on, and the names that it starts from and leads to.
pub proof fn changes_are_queued_as_given(
    journal: JournalView,
    record: MutationRecord,
    prerequisites: Seq<Id>,
)
    ensures
        match mutation_queued(journal, record, prerequisites) {
            Ok((after, stored)) => {
                &&& stored == (MutationRecord {
                    sequence: (journal.last_sequence + 1) as u64,
                    ..record
                })
                &&& after.mutations == journal.mutations.insert(record.id, stored)
                &&& after.uploads == journal.uploads
                &&& !journal.mutations.contains_key(record.id)
                &&& queued_behind(journal, after, record.id, record.base, prerequisites)
                &&& match record.request.intent {
                    MutationIntent::CreateFolder { parent, name } => after.resources.contains(
                        (record.id, slot_key(record.request.scope@, parent@, name@)),
                    ),
                    MutationIntent::Relocate { before, parent, name } => after.resources.contains(
                        (record.id, slot_key(record.request.scope@, parent@, name@)),
                    ) && after.resources.contains(
                        (record.id, item_key(record.request.scope@, before.id@)),
                    ) && after.resources.contains(
                        (
                            record.id,
                            slot_key(record.request.scope@, before.parent_id->0@, before.name@),
                        ),
                    ),
                    MutationIntent::RemoveFile { before } => after.resources.contains(
                        (record.id, item_key(record.request.scope@, before.id@)),
                    ) && after.resources.contains(
                        (
                            record.id,
                            slot_key(record.request.scope@, before.parent_id->0@, before.name@),
                        ),
                    ),
                    MutationIntent::RemoveFolder { before } => after.resources.contains(
                        (record.id, item_key(record.request.scope@, before.id@)),
                    ) && after.resources.contains(
                        (
                            record.id,
                            slot_key(record.request.scope@, before.parent_id->0@, before.name@),
                        ),
                    ),
                }
            },
            Err(_) => true,
        },
{
}

/// An operation into a local folder remembers the folder until the provider knows it, and
/// an operation into any other folder remembers none.
pub proof fn local_destinations_are_remembered(
    journal: JournalView,
    id: Id,
    sequence: u64,
    scope: ScopeView,
    parent: Seq<char>,
)
    ensures
        match (local_object(journal.objects, scope, parent), bound(
            journal,
            id,
            sequence,
            scope,
            parent,
        )) {
            (None, Ok(after)) => after == journal,
            (Some(folder), Ok(after)) => {
                &&& folder.node.kind == NodeKind::Folder && !folder.unlinked
                &&& folder.latest is Some || folder.remote is Some
                &&& after.destinations.contains_key(id)
                &&& after.destinations[id].parent == folder.id
                &&& after.destinations[id].predecessor == folder.latest
                &&& !after.destinations[id].resolved
            },
            (None, Err(_)) => false,
            (Some(folder), Err(_)) => folder.node.kind != NodeKind::Folder || folder.unlinked
                || !folder.remote_owned || (folder.latest is Some && !(journal.queue.contains_key(
                folder.latest->0,
            ) && 0 < journal.queue[folder.latest->0].sequence < sequence)) || (folder.latest is None
                && folder.remote is None) || journal.destinations.contains_key(id),
        },
{
}

/// Nothing stands in the way of a new operation of this kind.
pub open spec fn room_for(journal: JournalView, id: Id) -> bool {
    &&& !journal.queue.contains_key(id)
    &&& !journal.uploads.contains_key(id)
    &&& !journal.mutations.contains_key(id)
    &&& !journal.successors.contains_value(id)
    &&& journal.last_sequence < 0x7fff_ffff_ffff_ffff
}

/// An operation can be followed: it is queued, of this scope, and nothing follows it yet.
pub open spec fn open_end(journal: JournalView, id: Id, scope: Scope) -> bool {
    &&& journal.queue.contains_key(id)
    &&& 0 < journal.queue[id].sequence <= journal.last_sequence
    &&& !journal.successors.contains_key(id)
    &&& if journal.uploads.contains_key(id) {
        journal.uploads[id].scope@ == scope@
    } else {
        journal.mutations.contains_key(id) && journal.mutations[id].request.scope@ == scope@
    }
}

/// A change behind a queued operation is stored with that operation as its source, waits
/// for the receipt, and nobody can claim it before it is bound.
pub proof fn chained_changes_wait_for_their_source(
    journal: JournalView,
    id: Id,
    predecessor: Id,
    prerequisites: Seq<Id>,
    request: MutationRequest,
    valid: bool,
    now: u64,
)
    ensures
        match request_following(journal, id, predecessor, prerequisites, request, valid) {
            Ok((after, record)) => {
                &&& valid
                &&& record.id == id
                &&& record.request == request
                &&& record.state == MutationState::Pending
                &&& record.base == Some(WriteBase { predecessor, resolved: false })
                &&& record.attempt is None && record.receipt is None && record.working_file is None
                &&& record.retry_at == 0 && record.failed_attempts == 0 && record.local_ready
                &&& after.mutations == journal.mutations.insert(id, record)
                &&& queued_behind(journal, after, id, record.base, prerequisites)
                &&& !next_mutation(after, now, id)
            },
            Err(_) => true,
        },
        // A save of a file can always be followed by a move or a removal of that file.
        (valid && room_for(journal, id) && open_end(journal, predecessor, request.scope)
            && request.scope.account@ == journal.account && prerequisites.len() == 0
            && journal.uploads.contains_key(predecessor) && match request.intent {
            MutationIntent::Relocate { before, parent, name } => before.kind == NodeKind::File
                && before.target is None && before.parent_id is Some && local_object(
                journal.objects,
                request.scope@,
                parent@,
            ) is None,
            MutationIntent::RemoveFile { before } => before.kind == NodeKind::File && before.target
                is None && before.parent_id is Some,
            _ => false,
        }) ==> request_following(journal, id, predecessor, prerequisites, request, valid) is Ok,
{
    let base = Some(WriteBase { predecessor, resolved: false });
    changes_are_queued_as_given(
        journal,
        new_mutation(id, request, base, None, true),
        prerequisites,
    );
    if prerequisites.len() == 0 {
        assert(barrier_refusal(journal, request.scope@, prerequisites) is None);
    }
}

/// A save behind a queued operation is stored with that operation as its source, waits for
/// the receipt, and nobody can claim it before it is bound. Its bytes are those that were
/// sealed.
pub proof fn chained_saves_wait_for_their_source(
    journal: JournalView,
    id: Id,
    predecessor: Id,
    prerequisites: Seq<Id>,
    scope: Scope,
    intent: UploadIntent,
    valid: bool,
    usage: Usage,
    sealed: Sealed,
    now: u64,
    state: UploadState,
)
    ensures
        match following(
            journal,
            id,
            predecessor,
            prerequisites,
            scope,
            intent,
            valid,
            usage,
            sealed,
        ) {
            Ok((after, record)) => {
                &&& valid
                &&& record.id == id
                &&& record.scope == scope && record.intent == intent
                &&& record.state == UploadState::Pending
                &&& record.base == Some(WriteBase { predecessor, resolved: false })
                &&& record.size == sealed.size && record.sha256 == sealed.sha256
                &&& record.attempt is None && record.remote is None && record.session_key is None
                &&& record.transferred_bytes == 0 && record.retry_at == 0
                    && record.failed_attempts == 0
                &&& after.uploads == journal.uploads.insert(id, record)
                &&& queued_behind(journal, after, id, record.base, prerequisites)
                &&& !next_upload(after, now, state, id)
            },
            Err(_) => true,
        },
        (valid && room_for(journal, id) && open_end(journal, predecessor, scope)
            && scope.account@ == journal.account && scope.provider@.len() > 0
            && scope.collection@.len() > 0 && prerequisites.len() == 0
            && journal.uploads.contains_key(predecessor) && usage.files < 10_000 && usage.bytes
            + sealed.size <= journal.quota) ==> following(
            journal,
            id,
            predecessor,
            prerequisites,
            scope,
            intent,
            valid,
            usage,
            sealed,
        ) is Ok,
{
    let base = Some(WriteBase { predecessor, resolved: false });
    uploads_are_queued_as_given(
        journal,
        new_upload(id, scope, intent, UploadState::Pending, sealed, base, None),
        prerequisites,
    );
    if prerequisites.len() == 0 {
        assert(barrier_refusal(journal, scope@, prerequisites) is None);
    }
}

/// What a later save is planned with: behind a save, its own target; behind a rename, the
/// renamed item.
pub proof fn later_saves_aim_at_the_same_file(
    journal: JournalView,
    predecessor: Id,
    scope: Scope,
    intent: UploadIntent,
)
    requires
        follows(journal, predecessor, scope, intent),
    ensures
        journal.uploads.contains_key(predecessor) ==> scope == journal.uploads[predecessor].scope
            && intent == journal.uploads[predecessor].intent,
        !journal.uploads.contains_key(predecessor) ==> {
            &&& journal.mutations.contains_key(predecessor)
            &&& scope == journal.mutations[predecessor].request.scope
            &&& journal.mutations[predecessor].request.intent is Relocate
            &&& intent is Replace
            &&& intent->item
                == journal.mutations[predecessor].request.intent->Relocate_before.id
        },
{
}

/// The form of a request that is checked is the request itself, but for the tag of a
/// source whose receipt is still to come.
pub proof fn checked_forms_differ_in_the_tag_alone(request: MutationRequest, form: MutationRequest)
    requires
        previewed(request, form),
    ensures
        form.scope == request.scope,
        request.intent is CreateFolder ==> form == request,
        request.intent matches MutationIntent::Relocate { before, parent, name } ==> {
            &&& form.intent is Relocate
            &&& form.intent->Relocate_parent == parent && form.intent->Relocate_name == name
            &&& form.intent->Relocate_before.id == before.id
            &&& form.intent->Relocate_before.name == before.name
            &&& form.intent->Relocate_before.size == before.size
            &&& form.intent->Relocate_before.etag is Some
        },
        request.intent matches MutationIntent::RemoveFile { before } ==> {
            &&& form.intent is RemoveFile
            &&& form.intent->RemoveFile_before.id == before.id
            &&& form.intent->RemoveFile_before.etag is Some
        },
        request.intent matches MutationIntent::RemoveFolder { before } ==> {
            &&& form.intent is RemoveFolder
            &&& form.intent->RemoveFolder_before.id == before.id
            &&& form.intent->RemoveFolder_before.etag is Some
        },
{
}

} // verus!
