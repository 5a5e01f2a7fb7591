//! What local editing promises: a new file is saved to the cloud, a changed one is saved
//! again, and an unchanged one is not.
use crate::journal::ancestry::{live, slot_of};
use crate::journal::chains::{changes_are_queued_as_given, room_for, uploads_are_queued_as_given};
use crate::journal::generations::{answered, follows};
use crate::journal::mutations::new_mutation;
use crate::journal::namespace::{
    apart, consistent, first_where, identity_taken, is_first, keeps_entry, lemma_first,
    local_object, occupied, owns, presents, remote_object, rule, save_step, stream_taken,
};
use crate::journal::observation::{home_of, stream_owner};
use crate::journal::queue::barrier_refusal;
use crate::journal::records::{
    JournalError, JournalView, NamespaceNames, NamespaceObject, UploadRecord, UploadState,
    WorkingFile, WriteBase,
};
use crate::journal::sealing::{Sealed, Usage, WorkingSource};
use crate::journal::uploads::{new_upload, upload_queued};
use crate::journal::working::{
    change_begun, change_finished, new_stream, read_count, reservable, sealing, seals_with,
    stream_published, stream_recovered, stream_relocated, stream_request, stream_sealed,
    write_begun,
};
use crate::model::{Id, Node, NodeKind, Scope, UploadIntent};
use vstd::prelude::*;

verus! {

/// A published stream belongs to a file: the stream of a new file is dirty and will create
/// it below its parent, that of a file of the provider is clean and will replace it under
/// its tag. The file is shown with the stream's node from then on.
pub proof fn streams_are_published_for_a_file(
    journal: JournalView,
    id: Id,
    local: String,
    version: String,
    scope: Scope,
    node: Node,
    new: bool,
    source: WorkingSource,
    own: bool,
    valid: bool,
)
    requires
        stream_published(journal, id, local, version, scope, node, new, source, own, valid) is Ok,
    ensures
        ({
            let (after, stream) = stream_published(
                journal,
                id,
                local,
                version,
                scope,
                node,
                new,
                source,
                own,
                valid,
            )->Ok_0;
            &&& valid && own
            &&& source.written == source.size && source.size == node.size
            &&& scope.account@ == journal.account
            &&& node.kind == NodeKind::File && node.target is None && node.parent_id is Some
            &&& new ==> node.size == 0
            &&& after.working == journal.working.insert(id, stream)
            &&& after.uploads == journal.uploads && after.mutations == journal.mutations
            &&& after.queue == journal.queue
            &&& stream.id == id && stream.scope == scope && !stream.unlinked && stream.generation
                == 0
            &&& stream.node.size == node.size && stream.node.kind == NodeKind::File
            &&& stream.dirty == new
            &&& new ==> {
                &&& stream.intent == (UploadIntent::Create {
                    parent: node.parent_id->0,
                    name: node.name,
                })
                &&& stream.latest is None
                &&& stream.initial_remote is None
                &&& stream.node.id == local
                &&& stream.node.name == node.name
                &&& stream.node.parent_id == node.parent_id
                &&& !journal.objects.contains_key(id) ==> after.objects == journal.objects.insert(
                    id,
                    after.objects[id],
                )
                &&& after.objects.contains_key(id)
                &&& after.objects[id].id == id
                &&& after.objects[id].node == stream.node
                &&& after.objects[id].working_file == Some(id)
                &&& after.objects[id].scope == scope
                &&& !after.objects[id].unlinked && !after.objects[id].follows_remote
                &&& after.objects[id].remote is None
            }
            &&& !new ==> {
                &&& node.etag is Some
                &&& stream.intent == (UploadIntent::Replace {
                    item: node.id,
                    expected_etag: node.etag->0,
                })
                &&& stream.initial_remote is Some
                &&& stream.initial_remote->0.id@ == node.id@
            }
        }),
{
    let file = new_stream(id, local, version, scope, node, new);
    let home = home_of(journal, file);
    if !new {
        if let Some(object) = home {
            lemma_home(journal, scope, node.id@, object);
        }
    }
}

/// The owner of a provider identity has it.
proof fn lemma_home(journal: JournalView, scope: Scope, item: Seq<char>, object: NamespaceObject)
    requires
        remote_object(journal.objects, scope@, item) == Some(object),
    ensures
        object.remote is Some,
        object.remote->0.id@ == item,
{
    let wanted = |object: NamespaceObject| owns(object, scope@, item);
    let id = choose|id: Id| is_first(journal.objects, wanted, id);
    assert(is_first(journal.objects, wanted, id));
}

/// A new file reaches the queue when it is saved, also an empty one: sealing its stream
/// right after it was created gives a pending upload that creates it below its parent,
/// under its name and with the sealed bytes.
pub proof fn new_files_are_saved(
    journal: JournalView,
    id: Id,
    local: String,
    version: String,
    scope: Scope,
    node: Node,
    source: WorkingSource,
    upload: Id,
    usage: Usage,
    sealed: Sealed,
    result: Result<Option<UploadRecord>, JournalError>,
    last: JournalView,
)
    requires
        stream_published(journal, id, local, version, scope, node, true, source, true, true) is Ok,
        !journal.objects.contains_key(id),
        room_for(journal, upload),
        !journal.operations.contains_key(upload),
        journal.clock < 0x7fff_ffff_ffff_fffe,
        // The parent is a folder of the provider, and the bytes fit into the quota.
        local_object(journal.objects, scope@, node.parent_id->0@) is None,
        local@ != node.parent_id->0@,
        usage.files < 10_000,
        usage.bytes + sealed.size <= journal.quota,
        ({
            let after = stream_published(
                journal,
                id,
                local,
                version,
                scope,
                node,
                true,
                source,
                true,
                true,
            )->Ok_0.0;
            sealing(after, upload, id, true, usage, sealed, result, last)
        }),
    ensures
        result is Ok,
        result->Ok_0 is Some,
        ({
            let record = result->Ok_0->0;
            &&& record.id == upload
            &&& record.state == UploadState::Pending
            &&& record.intent == (UploadIntent::Create {
                parent: node.parent_id->0,
                name: node.name,
            })
            &&& record.scope == scope
            &&& record.size == sealed.size && record.sha256 == sealed.sha256
            &&& record.base is None
            &&& record.working_file == Some(id)
            &&& last.uploads == journal.uploads.insert(upload, record)
            &&& !last.working[id].dirty
            &&& last.working[id].latest == Some(upload)
            &&& last.objects[id].latest == Some(upload)
        }),
{
    streams_are_published_for_a_file(
        journal,
        id,
        local,
        version,
        scope,
        node,
        true,
        source,
        true,
        true,
    );
    let (after, stream) = stream_published(
        journal,
        id,
        local,
        version,
        scope,
        node,
        true,
        source,
        true,
        true,
    )->Ok_0;
    let intent = UploadIntent::Create { parent: node.parent_id->0, name: node.name };
    let object = after.objects[id];
    assert(seals_with(after, after.working[id], intent));
    // The parent is no local folder after the new object either.
    let parent = node.parent_id->0@;
    assert(local_object(after.objects, scope@, parent) is None) by {
        let wanted = |object: NamespaceObject|
            presents(object, scope@, parent);
        if exists|other: Id| is_first(after.objects, wanted, other) {
            let other = choose|other: Id| is_first(after.objects, wanted, other);
            assert(other != id);
            assert(journal.objects.contains_key(other));
            lemma_some_first(journal.objects, wanted, other);
        }
    }
    let raw = new_upload(
        upload,
        scope,
        intent,
        UploadState::Pending,
        sealed,
        None,
        Some(id),
    );
    uploads_are_queued_as_given(after, raw, Seq::empty());
    assert(barrier_refusal(after, scope@, Seq::<Id>::empty()) is None);
    let (queued, record) = upload_queued(after, raw, Seq::empty())->Ok_0;
    let saved = WorkingFile {
        latest: Some(upload),
        dirty: false,
        node: Node { size: sealed.size, ..stream.node },
        ..stream
    };
    let middle = JournalView { working: queued.working.insert(id, saved), ..queued };
    let wanted = |object: NamespaceObject| object.working_file == Some(id);
    assert(is_first(middle.objects, wanted, id)) by {
        assert forall|other: Id| #[trigger]
            middle.objects.contains_key(other) && wanted(middle.objects[other]) implies id
            <= other by {
            if other != id {
                assert(journal.objects.contains_key(other));
            }
        }
    }
    lemma_first(middle.objects, wanted, id);
    assert(stream_owner(middle.objects, id) == Some(object));
    let next = NamespaceObject {
        node: saved.node,
        latest: Some(upload),
        revision: (object.revision + 1) as u64,
        ..object
    };
    assert(object.revision == 1);
    assert(keeps_entry(middle, next));
    assert(rule(middle, next.scope@) == Ok::<
        NamespaceNames,
        JournalError,
    >(next.names)) by {
        assert(middle.scopes.contains_key(scope@));
    }
    assert(!occupied(middle, next)) by {
        assert forall|other: Id| #[trigger]
            middle.objects.contains_key(other) && other != id
                && live(middle.objects[other]) implies
            slot_of(middle.objects[other])
            != slot_of(next) by {
            assert(journal.objects.contains_key(other));
        }
    }
    assert(!identity_taken(middle, next)) by {
        assert forall|other: Id| #[trigger]
            middle.objects.contains_key(other) && other != id implies
            !presents(
            middle.objects[other],
            next.scope@,
            next.node.id@,
        ) by {
            assert(journal.objects.contains_key(other));
        }
    }
    assert(!stream_taken(middle, next));
    assert(save_step(middle, next) is Ok);
    assert(stream_sealed(after, upload, id, intent, true, usage, sealed) is Ok);
}

/// Where some object is wanted, there is a first one.
proof fn lemma_some_first(
    objects: Map<Id, NamespaceObject>,
    wanted: spec_fn(NamespaceObject) -> bool,
    id: Id,
)
    requires
        objects.contains_key(id),
        wanted(objects[id]),
    ensures
        first_where(objects, wanted) is Some,
    decreases id,
{
    if !is_first(objects, wanted, id) {
        let other = choose|other: Id| #[trigger]
            objects.contains_key(other) && wanted(objects[other]) && other < id;
        lemma_some_first(objects, wanted, other);
    }
}

/// A file of the provider that was only opened is not saved: sealing its stream right
/// after it was published queues nothing and changes nothing.
pub proof fn unchanged_files_are_not_saved(
    journal: JournalView,
    id: Id,
    local: String,
    version: String,
    scope: Scope,
    node: Node,
    source: WorkingSource,
    valid: bool,
    upload: Id,
    usage: Usage,
    sealed: Sealed,
    result: Result<Option<UploadRecord>, JournalError>,
    last: JournalView,
)
    requires
        stream_published(journal, id, local, version, scope, node, false, source, true, true) is Ok,
        sealing(
            stream_published(
                journal,
                id,
                local,
                version,
                scope,
                node,
                false,
                source,
                true,
                true,
            )->Ok_0.0,
            upload,
            id,
            valid,
            usage,
            sealed,
            result,
            last,
        ),
    ensures
        result == Ok::<Option<UploadRecord>, JournalError>(None),
        last == stream_published(
            journal,
            id,
            local,
            version,
            scope,
            node,
            false,
            source,
            true,
            true,
        )->Ok_0.0,
{
    streams_are_published_for_a_file(
        journal,
        id,
        local,
        version,
        scope,
        node,
        false,
        source,
        true,
        true,
    );
}

/// Saving a stream queues exactly one upload of the sealed bytes, behind the latest
/// operation on the file, and the stream is clean then. A clean stream is not saved.
pub proof fn saves_queue_the_sealed_bytes(
    journal: JournalView,
    upload: Id,
    id: Id,
    valid: bool,
    usage: Usage,
    sealed: Sealed,
    result: Result<Option<UploadRecord>, JournalError>,
    after: JournalView,
)
    requires
        sealing(journal, upload, id, valid, usage, sealed, result, after),
        journal.working.contains_key(id) ==> journal.working[id].id == id,
    ensures
        result is Ok ==> journal.working.contains_key(id),
        journal.working.contains_key(id) ==> (result == Ok::<Option<UploadRecord>, JournalError>(None)
            <==> !journal.working[id].dirty),
        result is Err || result->Ok_0 is None ==> after == journal,
        result is Ok && result->Ok_0 is Some ==> {
            let record = result->Ok_0->0;
            let file = journal.working[id];
            &&& valid
            &&& record.id == upload && record.state == UploadState::Pending
            &&& record.scope == file.scope
            &&& record.size == sealed.size && record.sha256 == sealed.sha256
            &&& record.working_file == Some(id)
            &&& record.sequence == journal.last_sequence + 1
            &&& file.latest is None ==> record.base is None && record.intent == file.intent
            &&& file.latest is Some ==> record.base == Some(
                WriteBase { predecessor: file.latest->0, resolved: false },
            ) && exists|scope: Scope| #[trigger]
                follows(journal, file.latest->0, scope, record.intent)
            &&& after.uploads == journal.uploads.insert(upload, record)
            &&& after.mutations == journal.mutations
            &&& after.working == journal.working.insert(
                id,
                WorkingFile {
                    latest: Some(upload),
                    dirty: false,
                    node: Node { size: sealed.size, ..file.node },
                    ..file
                },
            )
            &&& usage.files < 10_000
            &&& sealed.size == 0 || usage.bytes + sealed.size <= journal.quota
        },
{
    if journal.working.contains_key(id) && journal.working[id].dirty && result is Ok {
        let file = journal.working[id];
        let intent = choose|intent: UploadIntent| #[trigger]
            seals_with(journal, file, intent) && answered(
                stream_sealed(journal, upload, id, intent, valid, usage, sealed),
                result,
                journal,
                after,
            );
        let base = match file.latest {
            Some(predecessor) => Some(WriteBase { predecessor, resolved: false }),
            None => None,
        };
        let raw = new_upload(
            upload,
            file.scope,
            intent,
            UploadState::Pending,
            sealed,
            base,
            Some(id),
        );
        uploads_are_queued_as_given(journal, raw, Seq::empty());
    }
}

/// A changed file is saved: where its stream is dirty, its object shows the stream, and the
/// bytes fit into the quota, sealing it gives a pending upload of the sealed bytes.
pub proof fn changed_files_are_saved(
    journal: JournalView,
    upload: Id,
    id: Id,
    usage: Usage,
    sealed: Sealed,
    result: Result<Option<UploadRecord>, JournalError>,
    after: JournalView,
    object: NamespaceObject,
)
    requires
        sealing(journal, upload, id, true, usage, sealed, result, after),
        consistent(journal),
        journal.working.contains_key(id),
        journal.working[id].id == id,
        journal.working[id].dirty,
        journal.working[id].latest is None,
        journal.working[id].intent matches UploadIntent::Create { parent, .. } ==> local_object(
            journal.objects,
            journal.working[id].scope@,
            parent@,
        ) is None,
        journal.working[id].scope.account@ == journal.account,
        journal.working[id].scope.provider@.len() > 0,
        journal.working[id].scope.collection@.len() > 0,
        // Its object shows the stream.
        journal.objects.contains_key(object.id),
        journal.objects[object.id] == object,
        object.working_file == Some(id),
        object.scope@ == journal.working[id].scope@,
        object.node == journal.working[id].node,
        object.node.parent_id is Some,
        !object.unlinked,
        !journal.working[id].unlinked,
        !object.follows_remote,
        object.remote_owned,
        object.revision < u64::MAX,
        rule(journal, object.scope@) == Ok::<NamespaceNames, JournalError>(object.names),
        // There is room.
        room_for(journal, upload),
        !journal.operations.contains_key(upload),
        journal.clock < 0x7fff_ffff_ffff_ffff,
        usage.files < 10_000,
        usage.bytes + sealed.size <= journal.quota,
    ensures
        result is Ok,
        result->Ok_0 is Some,
        result->Ok_0->0.state == UploadState::Pending,
        result->Ok_0->0.intent == journal.working[id].intent,
        result->Ok_0->0.sha256 == sealed.sha256,
        after.uploads.contains_key(upload),
        !after.working[id].dirty,
{
    let file = journal.working[id];
    let intent = file.intent;
    assert(seals_with(journal, file, intent));
    let raw = new_upload(
        upload,
        file.scope,
        intent,
        UploadState::Pending,
        sealed,
        None,
        Some(id),
    );
    uploads_are_queued_as_given(journal, raw, Seq::empty());
    assert(barrier_refusal(journal, file.scope@, Seq::<Id>::empty()) is None);
    let (queued, record) = upload_queued(journal, raw, Seq::empty())->Ok_0;
    let saved = WorkingFile {
        latest: Some(upload),
        dirty: false,
        node: Node { size: sealed.size, ..file.node },
        ..file
    };
    let middle = JournalView { working: queued.working.insert(id, saved), ..queued };
    let wanted = |object: NamespaceObject| object.working_file == Some(id);
    assert(is_first(middle.objects, wanted, object.id)) by {
        assert forall|other: Id| #[trigger]
            middle.objects.contains_key(other) && wanted(middle.objects[other]) implies object.id
            <= other by {
            if other != object.id {
                assert(journal.objects.contains_key(other));
                assert(journal.objects.contains_key(object.id));
            }
        }
    }
    lemma_first(middle.objects, wanted, object.id);
    let next = NamespaceObject {
        node: saved.node,
        latest: Some(upload),
        revision: (object.revision + 1) as u64,
        ..object
    };
    assert(keeps_entry(middle, next));
    assert(rule(middle, next.scope@) == Ok::<NamespaceNames, JournalError>(next.names));
    assert forall|other: Id| #[trigger]
        middle.objects.contains_key(other) && other != object.id implies apart(
        middle.objects[other],
        object,
    ) by {
        assert(journal.objects.contains_key(other));
        assert(journal.objects.contains_key(object.id));
    }
    assert(save_step(middle, next) is Ok);
    assert(stream_sealed(journal, upload, id, intent, true, usage, sealed) is Ok);
}

/// A stream is marked as changed before its bytes change, and stays so until it is saved:
/// what was written is never taken for an unchanged copy.
pub proof fn changed_streams_are_dirty(
    journal: JournalView,
    id: Id,
    size: u64,
    length: u64,
    retained: u64,
    now: u64,
)
    requires
        journal.working.contains_key(id) ==> journal.working[id].id == id,
    ensures
        match change_begun(journal, id, size, length, retained) {
            Ok((after, file)) => {
                &&& journal.working.contains_key(id)
                &&& file == (WorkingFile {
                    dirty: true,
                    generation: (journal.working[id].generation + 1) as u64,
                    ..journal.working[id]
                })
                &&& after.working == journal.working.insert(id, file)
                &&& after.uploads == journal.uploads && after.mutations == journal.mutations
                    && after.queue == journal.queue
                // The growth fits into what the account may still keep.
                &&& size > length ==> retained + (size - length) <= journal.quota
            },
            Err(_) => true,
        },
        match change_finished(journal, id, size, now) {
            Ok((after, file)) => {
                &&& file == (WorkingFile {
                    node: Node { size, modified_unix: now, ..journal.working[id].node },
                    ..journal.working[id]
                })
                &&& after.working == journal.working.insert(id, file)
                &&& after.uploads == journal.uploads && after.mutations == journal.mutations
                    && after.queue == journal.queue
            },
            Err(_) => true,
        },
        match stream_recovered(journal, id, length) {
            Ok(after) => {
                &&& journal.working.contains_key(id)
                &&& journal.working[id].node.size == length ==> after == journal
                &&& journal.working[id].node.size != length ==> journal.working[id].dirty
                    && after.working == journal.working.insert(
                    id,
                    WorkingFile {
                        node: Node { size: length, ..journal.working[id].node },
                        ..journal.working[id]
                    },
                )
            },
            Err(_) => true,
        },
        journal.working.contains_key(id) && journal.working[id].node.size != length
            && !journal.working[id].dirty ==> stream_recovered(journal, id, length) == Err::<
            JournalView,
            JournalError,
        >(JournalError::Corrupt),
{
}

/// A write marks the stream for all of its bytes; an empty one changes nothing, and one
/// that is too long is refused.
pub proof fn writes_mark_the_stream(
    journal: JournalView,
    id: Id,
    offset: u64,
    count: nat,
    length: u64,
    retained: u64,
)
    requires
        journal.working.contains_key(id) ==> journal.working[id].id == id,
    ensures
        count > 8_388_608 ==> write_begun(journal, id, offset, count, length, retained) is Err,
        write_begun(journal, id, offset, count, length, retained) matches Ok((after, file)) ==> {
            &&& journal.working.contains_key(id)
            &&& count == 0 ==> after == journal && file == journal.working[id]
            &&& count > 0 ==> file.dirty && after.working[id].dirty && after.working[id].generation
                == journal.working[id].generation + 1 && offset + count <= u64::MAX
        },
{
}

/// A read returns what is there: all that was asked for where the bytes reach so far, the
/// rest of them where they do not, and nothing behind them; never more than the limit.
pub proof fn reads_return_what_is_there(length: u64, offset: u64, count: u32)
    ensures
        read_count(length, offset, count) <= count,
        read_count(length, offset, count) <= 8_388_608,
        offset >= length ==> read_count(length, offset, count) == 0,
        offset < length ==> read_count(length, offset, count) <= length - offset,
        offset + count <= length && count <= 8_388_608 ==> read_count(length, offset, count)
            == count,
        offset < length && length - offset <= count && length - offset <= 8_388_608 ==> read_count(
            length,
            offset,
            count,
        ) == length - offset,
{
}

/// Space is reserved exactly while the account has room for the bytes and for one more
/// file.
pub proof fn reservations_fit_the_quota(quota: u64, size: u64, usage: Usage)
    ensures
        reservable(quota, size, usage) <==> {
            &&& size <= 0x7fff_ffff_ffff_ffff
            &&& usage.files < 10_000
            &&& size == 0 || usage.bytes + size <= quota
        },
{
}

/// Renaming a stream queues one rename of its file, behind the latest operation on it, and
/// shows the stream under the new name at once. Its bytes, its identity and its save stay.
pub proof fn renamed_streams_move_at_once(
    journal: JournalView,
    operation: Id,
    id: Id,
    parent: String,
    name: String,
    named: bool,
    valid: bool,
)
    requires
        stream_relocated(journal, operation, id, parent, name, named, valid) is Ok,
        journal.working[id].id == id,
    ensures
        ({
            let (after, record) = stream_relocated(
                journal,
                operation,
                id,
                parent,
                name,
                named,
                valid,
            )->Ok_0;
            let file = journal.working[id];
            &&& named
            &&& journal.working.contains_key(id) && !file.dirty
            &&& file.node.id@ != parent@
            &&& record.id == operation
            &&& record.request.scope == file.scope
            &&& record.request.intent is Relocate
            &&& record.request.intent->Relocate_parent == parent
            &&& record.request.intent->Relocate_name == name
            &&& file.latest is Some ==> record.request.intent->Relocate_before == file.node
            &&& file.latest is None && file.initial_remote is Some
                ==> record.request.intent->Relocate_before == file.initial_remote->0
            &&& record.base == (match file.latest {
                Some(predecessor) => Some(WriteBase { predecessor, resolved: false }),
                None => None,
            })
            &&& after.mutations == journal.mutations.insert(operation, record)
            &&& after.uploads == journal.uploads
            &&& after.working == journal.working.insert(
                id,
                WorkingFile {
                    node: Node { parent_id: Some(parent), name, ..file.node },
                    generation: (file.generation + 1) as u64,
                    latest: Some(operation),
                    ..file
                },
            )
        }),
{
    let file = journal.working[id];
    let request = stream_request(file, parent, name);
    let base = match file.latest {
        Some(predecessor) => Some(WriteBase { predecessor, resolved: false }),
        None => None,
    };
    changes_are_queued_as_given(
        journal,
        new_mutation(operation, request, base, Some(id), true),
        Seq::empty(),
    );
}

} // verus!
