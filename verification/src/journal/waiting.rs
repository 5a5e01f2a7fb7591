//! What an operation may follow, what holds it back, and what waits for it.
use crate::journal::generations::{
    base_node, base_refusal, confirmed_of, find, follow_refusal, is_ready, ready_batch_of,
    successor_refusal, waiting, with_source, Operation, Ready,
};
use crate::journal::mutations::{is_stuck, stuck_rows};
use crate::journal::preparation::{
    adoptable, digests_differ, fetchable, settled_source, temporary_owner, temporary_prefix,
};
use crate::journal::records::{
    JournalError, JournalView, MutationRecord, MutationState, NamespaceObject, UploadPreparation,
    UploadRecord, UploadState, WorkingFile, WriteBase,
};
use crate::journal::replacements::{
    next_generation, outlived_readers, over_refusal, side_refusal, unpreparable,
    waiting_replacements,
};
use crate::journal::unlinked::waiting_readers;
use crate::model::{Id, MutationIntent, MutationReceipt, MutationRequest, Node, NodeKind, ScopeView};
use crate::outside::{id_text, read_as};
use crate::words::begins;
use vstd::prelude::*;

verus! {

/// An operation is known as the upload or the change that is stored under its identity, and
/// only one that has no content successor yet can get one.
pub proof fn operations_have_one_successor(journal: JournalView, id: Id)
    ensures
        journal.uploads.contains_key(id) ==> find(journal, id) == Some(
            Operation::Upload(journal.uploads[id]),
        ),
        !journal.uploads.contains_key(id) && journal.mutations.contains_key(id) ==> find(
            journal,
            id,
        ) == Some(Operation::Mutation(journal.mutations[id])),
        !journal.uploads.contains_key(id) && !journal.mutations.contains_key(id) ==> find(
            journal,
            id,
        ) is None && successor_refusal(journal, id) == Some(JournalError::Missing),
        journal.uploads.contains_key(id) || journal.mutations.contains_key(id) ==> (
        successor_refusal(journal, id) is None <==> !journal.successors.contains_key(id)),
        (journal.uploads.contains_key(id) || journal.mutations.contains_key(id))
            && journal.successors.contains_key(id) ==> successor_refusal(journal, id) == Some(
            JournalError::Stale,
        ),
{
}

/// What an operation leaves behind is confirmed only by its own receipt, once it is done: an
/// upload by the node that the provider gave it, a change by the node in its receipt, and a
/// removal by nothing.
pub proof fn only_receipts_confirm(upload: UploadRecord, change: MutationRecord)
    ensures
        upload.state == UploadState::Uploaded ==> confirmed_of(Operation::Upload(upload))
            == upload.remote,
        upload.state != UploadState::Uploaded ==> confirmed_of(Operation::Upload(upload)) is None,
        change.state != MutationState::Applied ==> confirmed_of(
            Operation::Mutation(change),
        ) is None,
        change.state == MutationState::Applied ==> {
            &&& change.receipt matches Some(MutationReceipt::Upsert(node)) ==> confirmed_of(
                Operation::Mutation(change),
            ) == Some(node)
            &&& change.receipt matches Some(MutationReceipt::Removed(_)) ==> confirmed_of(
                Operation::Mutation(change),
            ) is None
            &&& change.receipt is None ==> confirmed_of(Operation::Mutation(change)) is None
        },
{
}

/// A save follows an earlier save of the file, or a move of a file; it follows neither a
/// removal nor a change of a folder.
pub proof fn saves_follow_saves_and_moves(journal: JournalView, id: Id)
    ensures
        journal.uploads.contains_key(id) ==> follow_refusal(journal, id) is None,
        !journal.uploads.contains_key(id) && journal.mutations.contains_key(id) ==> {
            let intent = journal.mutations[id].request.intent;
            &&& follow_refusal(journal, id) is None <==> intent is Relocate
                && intent->Relocate_before.kind == NodeKind::File
            &&& follow_refusal(journal, id) is Some ==> follow_refusal(journal, id) == Some(
                JournalError::Intent,
            )
        },
        !journal.uploads.contains_key(id) && !journal.mutations.contains_key(id) ==> follow_refusal(
            journal,
            id,
        ) == Some(JournalError::Missing),
{
}

/// A change follows an operation of its own scope and account that leaves the same kind of node
/// behind; a new folder follows nothing, and nothing follows a removal.
pub proof fn changes_follow_what_they_change(
    journal: JournalView,
    id: Id,
    request: MutationRequest,
    valid: bool,
)
    ensures
        base_refusal(journal, id, request, valid) is None ==> {
            &&& find(journal, id) is Some
            &&& request.scope.account@ == journal.account
            &&& !(request.intent is CreateFolder)
            &&& valid
        },
        journal.uploads.contains_key(id) && journal.uploads[id].scope@ == request.scope@
            && request.scope.account@ == journal.account && valid ==> {
            &&& request.intent matches MutationIntent::Relocate { before, .. } ==> (base_refusal(
                journal,
                id,
                request,
                valid,
            ) is None <==> before.kind == NodeKind::File && before.target is None)
            &&& request.intent matches MutationIntent::RemoveFile { before } ==> (base_refusal(
                journal,
                id,
                request,
                valid,
            ) is None <==> before.kind == NodeKind::File && before.target is None)
        },
        !journal.uploads.contains_key(id) && journal.mutations.contains_key(id) && (
        journal.mutations[id].request.intent is RemoveFile
            || journal.mutations[id].request.intent is RemoveFolder) ==> base_refusal(
            journal,
            id,
            request,
            valid,
        ) is Some,
        journal.uploads.contains_key(id) && journal.uploads[id].scope@ != request.scope@
            ==> base_refusal(journal, id, request, valid) == Some(JournalError::Account),
{
}

/// A base supplies the node that its receipt confirmed, to a later operation of the same scope;
/// a link is never supplied.
pub proof fn bases_supply_what_was_confirmed(
    journal: JournalView,
    base: WriteBase,
    scope: ScopeView,
    sequence: u64,
)
    ensures
        base_node(journal, base, scope, sequence) is Err <==> !journal.uploads.contains_key(
            base.predecessor,
        ) && !journal.mutations.contains_key(base.predecessor),
        journal.uploads.contains_key(base.predecessor) ==> {
            let before = journal.uploads[base.predecessor];
            let usable = before.scope@ == scope && before.sequence < sequence && before.state
                == UploadState::Uploaded && before.remote is Some && before.remote->0.target is None;
            base_node(journal, base, scope, sequence) == Ok::<Option<Node>, JournalError>(
                if usable {
                    before.remote
                } else {
                    None
                },
            )
        },
{
}

/// A change of the source of an intent changes nothing else of it.
pub proof fn only_the_source_is_replaced(intent: MutationIntent, node: Node)
    ensures
        intent matches MutationIntent::Relocate { parent, name, .. } ==> with_source(intent, node)
            == (MutationIntent::Relocate { before: node, parent, name }),
        intent is RemoveFile ==> with_source(intent, node) == (MutationIntent::RemoveFile {
            before: node,
        }),
        intent is RemoveFolder ==> with_source(intent, node) == (MutationIntent::RemoveFolder {
            before: node,
        }),
        intent is CreateFolder ==> with_source(intent, node) == intent,
{
}

/// The base of this operation is complete and it is not bound to it yet.
pub open spec fn can_be_bound(journal: JournalView, base: Option<WriteBase>) -> bool {
    base is Some && !base->0.resolved && journal.queue.contains_key(base->0.predecessor)
        && journal.queue[base->0.predecessor].complete
}

/// Exactly those operations are bound that have not begun and whose base is complete: the
/// earliest first, 256 at most in one pass.
pub proof fn the_earliest_are_bound_first(
    journal: JournalView,
    batch: Seq<Ready>,
    id: Id,
    i: int,
    j: int,
)
    requires
        ready_batch_of(journal, batch),
    ensures
        batch.len() <= 256,
        is_ready(journal, Ready::Upload(id)) <==> journal.uploads.contains_key(id) && (
        journal.uploads[id].state == UploadState::Pending || journal.uploads[id].state
            == UploadState::Preparing) && can_be_bound(journal, journal.uploads[id].base),
        is_ready(journal, Ready::Mutation(id)) <==> journal.mutations.contains_key(id)
            && journal.mutations[id].state == MutationState::Pending && can_be_bound(
            journal,
            journal.mutations[id].base,
        ),
        batch.contains(Ready::Upload(id)) ==> is_ready(journal, Ready::Upload(id)),
        batch.contains(Ready::Mutation(id)) ==> is_ready(journal, Ready::Mutation(id)),
        batch.len() < 256 ==> (is_ready(journal, Ready::Upload(id)) ==> batch.contains(
            Ready::Upload(id),
        )) && (is_ready(journal, Ready::Mutation(id)) ==> batch.contains(Ready::Mutation(id))),
        0 <= i < j < batch.len() && batch[i] is Upload && batch[j] is Upload
            ==> journal.uploads[batch[i]->Upload_0].sequence
            <= journal.uploads[batch[j]->Upload_0].sequence,
        0 <= i < j < batch.len() && batch[i] is Mutation && batch[j] is Upload
            ==> journal.mutations[batch[i]->Mutation_0].sequence
            <= journal.uploads[batch[j]->Upload_0].sequence,
        !waiting(journal) ==> batch.len() == 0,
{
    if 0 <= i < j < batch.len() {
        assert(is_ready(journal, batch[i]));
        assert(is_ready(journal, batch[j]));
    }
    if batch.len() > 0 {
        assert(is_ready(journal, batch[0]));
    }
}

/// A removal waits for its readers until they are local or gone, and so does a replacement. What
/// an earlier process waited for is over, unless the source is still to be fetched.
pub proof fn readers_hold_edits_back(
    journal: JournalView,
    after: u64,
    id: Id,
    change: MutationRecord,
    upload: UploadRecord,
)
    ensures
        waiting_readers(after)(id, change) <==> change.sequence > after && !change.local_ready,
        waiting_replacements(journal, after)(id, upload) <==> upload.sequence > after
            && journal.replacements.contains_key(id) && !journal.replacements[id].local_ready,
        outlived_readers(journal)(id, upload) ==> journal.replacements.contains_key(id)
            && !journal.replacements[id].local_ready,
        upload.sequence > 0 && journal.replacements.contains_key(id)
            && !journal.replacements[id].local_ready && journal.uploads.contains_key(id)
            && journal.uploads[id].sha256@.len() > 0 ==> outlived_readers(journal)(id, upload),
{
}

/// A change that nothing retries is one that the provider refused, that failed for good, or
/// that a person has to look at.
pub proof fn stuck_changes_need_a_person(id: Id, change: MutationRecord)
    ensures
        stuck_rows()(id, change) <==> change.state == MutationState::Conflict || change.state
            == MutationState::Failed || change.state == MutationState::NeedsReview,
        is_stuck(change.state) <==> stuck_rows()(id, change),
{
}

/// A file takes part in a replacement only as a plain file with a name and a provider item of
/// its own, and something is published over it only where its version is known or will be.
pub proof fn replacements_need_plain_files(journal: JournalView, object: NamespaceObject)
    ensures
        side_refusal(object) is None <==> {
            &&& !object.unlinked && !object.follows_remote && object.remote_owned
            &&& object.node.kind == NodeKind::File && object.node.target is None
        },
        object.unlinked || object.follows_remote || !object.remote_owned ==> side_refusal(object)
            == Some(JournalError::Stale),
        object.latest is None ==> (over_refusal(journal, object) is None <==> object.remote is Some
            && object.remote->0.etag is Some),
        object.latest matches Some(before) ==> over_refusal(journal, object) == follow_refusal(
            journal,
            before,
        ),
{
}

/// The bytes of a source can be captured where a receipt will name them or a version does
/// already; they are fetched only as a plain file of the expected size, and adopted only as
/// exactly the bytes that were recorded.
pub proof fn captures_are_of_known_bytes(
    preparation: UploadPreparation,
    source: Option<Node>,
    size: u64,
    upload: UploadRecord,
    plain: bool,
    digest: Seq<char>,
)
    ensures
        preparation.source_base is Some ==> !unpreparable(preparation),
        preparation.source_base is None && preparation.remote is None ==> unpreparable(preparation),
        fetchable(source, size) ==> source is Some && source->0.kind == NodeKind::File
            && source->0.target is None && source->0.size == size && source->0.etag is Some,
        source is None ==> !fetchable(source, size),
        adoptable(upload, preparation, size, plain, digest) <==> size == upload.size && plain
            && preparation.sha256 is Some && preparation.sha256->0@ == digest,
        !digests_differ(None, digest),
        !digests_differ(Some(digest), digest),
        preparation.sha256 is Some && preparation.sha256->0@ != digest ==> digests_differ(
            Some(preparation.sha256->0@),
            digest,
        ),
{
}

/// A source that is known stays as it is; one that is not becomes what the receipt of its base
/// confirmed, and nothing else of the preparation changes.
pub proof fn sources_are_settled_by_receipts(journal: JournalView, preparation: UploadPreparation)
    ensures
        preparation.remote is Some ==> settled_source(journal, preparation) == Ok::<
            UploadPreparation,
            JournalError,
        >(preparation),
        preparation.remote is None && preparation.source_base is None ==> settled_source(
            journal,
            preparation,
        ) == Err::<UploadPreparation, JournalError>(JournalError::Corrupt),
        preparation.remote is None && preparation.source_base is Some
            && journal.uploads.contains_key(preparation.source_base->0) ==> {
            let before = journal.uploads[preparation.source_base->0];
            settled_source(journal, preparation) == Ok::<UploadPreparation, JournalError>(
                UploadPreparation {
                    remote: if before.state == UploadState::Uploaded {
                        before.remote
                    } else {
                        None
                    },
                    ..preparation
                },
            )
        },
{
}

/// The name of a temporary file leads back to the preparation that it was made for, whatever
/// stands behind its identity.
pub proof fn temporary_names_lead_back(id: Id, rest: Seq<char>)
    ensures
        temporary_owner(temporary_prefix(id) + rest) == read_as(id_text(id)),
        begins(temporary_prefix(id) + rest, ".cirrove-preparing-"@),
{
    let start = ".cirrove-preparing-"@;
    let name = temporary_prefix(id) + rest;
    assert(id_text(id).len() == 36);
    assert(name.subrange(0, start.len() as int) =~= start);
    assert(name[(start.len() + 36) as int] == '-');
    assert(name.subrange(start.len() as int, (start.len() + 36) as int) =~= id_text(id));
}

/// A stream that takes another name is one state further, and nothing else of it changes.
pub proof fn renamed_streams_are_later(file: WorkingFile)
    ensures
        next_generation(file) is Err <==> file.generation == u64::MAX,
        next_generation(file) matches Ok(after) ==> after.generation == file.generation + 1
            && after.id == file.id && after.node == file.node && after.dirty == file.dirty
            && after.latest == file.latest,
{
}

} // verus!
