//! What the local namespace promises: what an object needs to be kept, what is known of a
//! provider's file, and what a listing or a publication holds.
use crate::journal::ancestry::{live, retained, routes};
use crate::journal::capture::entry_captured;
use crate::journal::directories::{localized, provider_identity};
use crate::journal::handoff::{cleanliness, collectable, is_candidate};
use crate::journal::listing::listing;
use crate::journal::mutations::{mutations_behind, stuck_rows};
use crate::journal::namespace::{
    is_first, local_object, owns, presents, remote_object, rule, save_step, with_rule,
};
use crate::journal::observation::{configured, file_observed};
use crate::journal::publication::{changes_behind, snapshot_of};
use crate::journal::queue::barrier_refusal;
use crate::journal::records::{
    JournalError, JournalView, MutationRecord, MutationState, NamespaceNames, NamespaceObject,
    UploadRecord, UploadState,
};
use crate::journal::sealing::left;
use crate::journal::shown::one_name;
use crate::journal::uploads::{page_limit, payload_refusal, uploads_behind};
use crate::model::{Id, Node, NodeKind, Scope, ScopeView};
use vstd::prelude::*;

verus! {

/// Another object of the scope with a name of its own has this object's name and place.
pub open spec fn name_in_use(journal: JournalView, object: NamespaceObject) -> bool {
    exists|other: Id| #[trigger]
        journal.objects.contains_key(other) && other != object.id
            && !journal.objects[other].unlinked && !journal.objects[other].follows_remote
            && journal.objects[other].scope@ == object.scope@
            && journal.objects[other].node.parent_id is Some && object.node.parent_id is Some
            && journal.objects[other].node.parent_id->0@ == object.node.parent_id->0@
            && journal.objects[other].names == object.names && one_name(
            object.names,
            journal.objects[other].node.name@,
            object.node.name@,
        )
}

/// Keeping an object stores exactly that object, marks it as changed and binds its latest
/// operation to it. An object with a name never gets one that another has, and no two
/// objects ever share a local identity, a provider item, a stream or an operation.
pub proof fn objects_are_kept_as_given(journal: JournalView, object: NamespaceObject)
    ensures
        save_step(journal, object) matches Ok(after) ==> {
            &&& after.objects == journal.objects.insert(object.id, object)
            &&& after.clock == journal.clock + 1
            &&& after.changes == journal.changes.insert(object.id, after.clock)
            &&& after.operations == (match object.latest {
                Some(latest) => journal.operations.insert(latest, object.id),
                None => journal.operations,
            })
            &&& after == (JournalView {
                objects: after.objects,
                clock: after.clock,
                changes: after.changes,
                operations: after.operations,
                ..journal
            })
            &&& object.node.parent_id is Some
            &&& object.remote_owned || object.unlinked
            &&& !object.unlinked && !object.follows_remote ==> !name_in_use(journal, object)
            &&& forall|other: Id| #[trigger]
                journal.objects.contains_key(other) && other != object.id ==> {
                    let there = journal.objects[other];
                    &&& !(there.scope@ == object.scope@ && there.node.id@ == object.node.id@)
                    &&& object.working_file is Some ==> there.working_file != object.working_file
                    &&& object.remote_owned && object.remote is Some && there.remote_owned
                        && there.remote is Some && there.scope@ == object.scope@
                        ==> there.remote->0.id@ != object.remote->0.id@
                }
            &&& object.latest is Some && journal.operations.contains_key(object.latest->0)
                ==> journal.operations[object.latest->0] == object.id
        },
{
    if save_step(journal, object) is Ok {
        assert forall|other: Id| #[trigger]
            journal.objects.contains_key(other) && other != object.id implies {
            let there = journal.objects[other];
            &&& !(there.scope@ == object.scope@ && there.node.id@ == object.node.id@)
            &&& object.working_file is Some ==> there.working_file != object.working_file
            &&& object.remote_owned && object.remote is Some && there.remote_owned && there.remote
                is Some && there.scope@ == object.scope@ ==> there.remote->0.id@
                != object.remote->0.id@
        } by {
            let there = journal.objects[other];
            assert(!presents(there, object.scope@, object.node.id@));
            if object.remote_owned && object.remote is Some {
                assert(!owns(there, object.scope@, object.remote->0.id@));
            }
        }
        if !object.unlinked && !object.follows_remote && name_in_use(journal, object) {
            let other = choose|other: Id| #[trigger]
                journal.objects.contains_key(other) && other != object.id
                    && !journal.objects[other].unlinked && !journal.objects[other].follows_remote
                    && journal.objects[other].scope@ == object.scope@
                    && journal.objects[other].node.parent_id is Some && object.node.parent_id
                    is Some && journal.objects[other].node.parent_id->0@
                    == object.node.parent_id->0@ && journal.objects[other].names == object.names
                    && one_name(
                    object.names,
                    journal.objects[other].node.name@,
                    object.node.name@,
                );
            assert(live(journal.objects[other]));
        }
    }
}

/// A removed object whose identities nobody else has can always be kept.
pub proof fn removals_can_be_kept(journal: JournalView, object: NamespaceObject)
    requires
        object.unlinked,
        !object.follows_remote,
        object.node.parent_id is Some,
        rule(journal, object.scope@) == Ok::<NamespaceNames, JournalError>(object.names),
        journal.clock < 0x7fff_ffff_ffff_ffff,
        object.latest is Some ==> !journal.operations.contains_key(object.latest->0)
            || journal.operations[object.latest->0] == object.id,
        forall|other: Id| #[trigger]
            journal.objects.contains_key(other) && other != object.id ==> {
                let there = journal.objects[other];
                &&& !(there.scope@ == object.scope@ && there.node.id@ == object.node.id@)
                &&& object.working_file is Some ==> there.working_file != object.working_file
                &&& !(there.remote_owned && there.remote is Some && object.remote is Some
                    && there.scope@ == object.scope@ && there.remote->0.id@ == object.remote->0.id@)
            },
    ensures
        save_step(journal, object) is Ok,
{
}

/// The lookup of a local identity gives the object that has it, and none only where no
/// object does; likewise of a provider item and its owner.
pub proof fn lookups_find_what_is_there(
    journal: JournalView,
    scope: ScopeView,
    item: Seq<char>,
    id: Id,
)
    ensures
        match local_object(journal.objects, scope, item) {
            Some(object) => object.scope@ == scope && object.node.id@ == item
                && journal.objects.contains_value(object),
            None => journal.objects.contains_key(id) ==> !(journal.objects[id].scope@ == scope
                && journal.objects[id].node.id@ == item),
        },
        match remote_object(journal.objects, scope, item) {
            Some(object) => object.scope@ == scope && object.remote_owned && object.remote is Some
                && object.remote->0.id@ == item && journal.objects.contains_value(object),
            None => journal.objects.contains_key(id) ==> !(journal.objects[id].scope@ == scope
                && journal.objects[id].remote_owned && journal.objects[id].remote is Some
                && journal.objects[id].remote->0.id@ == item),
        },
{
    let local = |object: NamespaceObject| presents(object, scope, item);
    let remote = |object: NamespaceObject| owns(object, scope, item);
    if exists|at: Id| is_first(journal.objects, local, at) {
        let at = choose|at: Id| is_first(journal.objects, local, at);
        assert(journal.objects.contains_key(at));
    } else if journal.objects.contains_key(id) && presents(journal.objects[id], scope, item) {
        lemma_some_first(journal.objects, local, id);
    }
    if exists|at: Id| is_first(journal.objects, remote, at) {
        let at = choose|at: Id| is_first(journal.objects, remote, at);
        assert(journal.objects.contains_key(at));
    } else if journal.objects.contains_key(id) && owns(journal.objects[id], scope, item) {
        lemma_some_first(journal.objects, remote, id);
    }
}

/// Where some object is wanted, there is a first one.
proof fn lemma_some_first(
    objects: Map<Id, NamespaceObject>,
    wanted: spec_fn(NamespaceObject) -> bool,
    id: Id,
)
    requires
        objects.contains_key(id),
        wanted(objects[id]),
    ensures
        exists|at: Id| is_first(objects, wanted, at),
    decreases id,
{
    if !is_first(objects, wanted, id) {
        let other = choose|other: Id| #[trigger]
            objects.contains_key(other) && wanted(objects[other]) && other < id;
        lemma_some_first(objects, wanted, other);
    }
}

/// A file of the provider that is seen for the first time gets an object of its own: it is
/// known as the provider has it, shown under the same name, and nothing is queued for it.
/// One that is known already keeps its object.
pub proof fn seen_files_get_an_object(
    journal: JournalView,
    id: Id,
    scope: Scope,
    node: Node,
    valid: bool,
)
    ensures
        match file_observed(journal, id, scope, node, valid) {
            Ok((after, object)) => {
                &&& valid && node.kind == NodeKind::File && scope.account@ == journal.account
                &&& !object.unlinked && !object.follows_remote
                &&& object.remote_owned && object.remote is Some && object.remote->0.id@ == node.id@
                &&& after.uploads == journal.uploads && after.mutations == journal.mutations
                    && after.queue == journal.queue && after.working == journal.working
                &&& remote_object(journal.objects, scope@, node.id@) is None ==> {
                    &&& object.id == id && object.scope == scope
                    &&& object.remote == Some(node)
                    &&& object.node.id == node.id && object.node.name == node.name
                        && object.node.size == node.size && object.node.etag == node.etag
                        && object.node.kind == node.kind
                    &&& object.latest is None && object.working_file is None
                    &&& after.objects == journal.objects.insert(id, object)
                }
                &&& remote_object(journal.objects, scope@, node.id@) matches Some(known) ==> {
                    &&& object.id == known.id && object.node.id == known.node.id
                    &&& !known.follows_remote ==> after == journal && object == known
                    &&& known.follows_remote ==> object.remote == Some(node) && object.node.name
                        == node.name && object.revision == known.revision + 1 && after.objects
                        == journal.objects.insert(known.id, object)
                }
            },
            Err(_) => true,
        },
{
    lookups_find_what_is_there(journal, scope@, node.id@, id);
}

/// The rules for names are chosen once for a scope and never changed behind its back.
pub proof fn name_rules_are_chosen_once(journal: JournalView, scope: Scope, names: NamespaceNames)
    ensures
        configured(journal, scope, names) matches Ok(after) ==> {
            &&& after.scopes == journal.scopes.insert(scope@, names)
            &&& after == (JournalView { scopes: after.scopes, ..journal })
            &&& journal.scopes.contains_key(scope@) ==> journal.scopes[scope@] == names
        },
        (scope.account@ == journal.account && scope.provider@.len() > 0 && scope.collection@.len()
            > 0 && !journal.scopes.contains_key(scope@)) ==> configured(journal, scope, names) is Ok,
        rule(journal, scope@) matches Ok(found) ==> (journal.scopes.contains_key(scope@)
            ==> found == journal.scopes[scope@]) && (!journal.scopes.contains_key(scope@)
            ==> found == NamespaceNames::Insensitive),
        with_rule(journal, scope@).scopes.contains_key(scope@),
        with_rule(journal, scope@).scopes[scope@] == (if journal.scopes.contains_key(scope@) {
            journal.scopes[scope@]
        } else {
            NamespaceNames::Insensitive
        }),
{
    if journal.scopes.contains_key(scope@) && journal.scopes[scope@] == names {
        assert(journal.scopes =~= journal.scopes.insert(scope@, names));
    }
}

/// A node is shown below the local identity of the folder that owns its parent's item, and
/// below its own parent where no local folder does. A local folder is named to the
/// provider by its provider identity.
pub proof fn parents_are_named_both_ways(journal: JournalView, scope: ScopeView, node: Node)
    ensures
        localized(journal, scope, node) == (Node {
            parent_id: localized(journal, scope, node).parent_id,
            ..node
        }),
        node.parent_id is None ==> localized(journal, scope, node).parent_id is None,
        node.parent_id matches Some(parent) ==> match remote_object(
            journal.objects,
            scope,
            parent@,
        ) {
            Some(folder) => localized(journal, scope, node).parent_id == Some(
                if folder.node.kind == NodeKind::Folder && !folder.unlinked {
                    folder.node.id
                } else {
                    parent
                },
            ),
            None => localized(journal, scope, node).parent_id == Some(parent),
        },
        match local_object(journal.objects, scope, node.id@) {
            Some(folder) => match provider_identity(journal, scope, node.id@) {
                Ok(identity) => folder.remote is Some && identity == folder.remote->0.id@
                    && folder.node.kind == NodeKind::Folder && !folder.unlinked,
                Err(_) => folder.remote is None || folder.node.kind != NodeKind::Folder
                    || folder.unlinked,
            },
            None => provider_identity(journal, scope, node.id@) == Ok::<Seq<char>, JournalError>(
                node.id@,
            ),
        },
{
}

/// A publication holds every object that changed behind a place, as it is now and with the
/// stream that it names.
pub proof fn publications_hold_what_changed(
    journal: JournalView,
    after: u64,
    rows: Seq<(u64, Id)>,
    id: Id,
)
    requires
        listing(journal.changes, changes_behind(after), rows),
    ensures
        (exists|i: int| 0 <= i < rows.len() && (#[trigger] rows[i]).1 == id)
            <==> journal.changes.contains_key(id) && journal.changes[id] > after,
        forall|i: int, j: int|
            0 <= i < j < rows.len() ==> (#[trigger] rows[i]).1 != (#[trigger] rows[j]).1,
        snapshot_of(journal, id) matches Ok(snapshot) ==> {
            &&& journal.objects.contains_key(id)
            &&& snapshot.object == journal.objects[id]
            &&& snapshot.object.working_file is None <==> snapshot.working is None
            &&& snapshot.object.working_file matches Some(stream) ==> snapshot.working == Some(
                journal.working[stream],
            ) && snapshot.working->0.id == stream
        },
{
    if journal.changes.contains_key(id) && journal.changes[id] > after {
        let row = (journal.changes[id], id);
        assert(crate::journal::listing::chosen(journal.changes, changes_behind(after), row));
        assert(rows.contains(row));
        let i = choose|i: int| 0 <= i < rows.len() && rows[i] == row;
        assert(rows[i].1 == id);
    }
    assert forall|i: int| 0 <= i < rows.len() implies journal.changes.contains_key(
        (#[trigger] rows[i]).1,
    ) && journal.changes[rows[i].1] > after && rows[i].0 == journal.changes[rows[i].1] by {
        assert(rows.contains(rows[i]));
    }
    assert forall|i: int, j: int| 0 <= i < j < rows.len() implies (#[trigger] rows[i]).1 != (
    #[trigger] rows[j]).1 by {
        assert(crate::journal::listing::earlier(rows[i], rows[j]));
    }
}

/// What an operation may wait for: at most sixteen operations of its own scope, each named
/// once.
pub proof fn waits_are_checked(journal: JournalView, scope: ScopeView, ids: Seq<Id>)
    ensures
        barrier_refusal(journal, scope, ids) is None <==> {
            &&& ids.len() <= 16
            &&& ids.no_duplicates()
            &&& forall|i: int|
                0 <= i < ids.len() ==> if journal.uploads.contains_key(#[trigger] ids[i]) {
                    journal.uploads[ids[i]].scope@ == scope
                } else {
                    journal.mutations.contains_key(ids[i])
                        && journal.mutations[ids[i]].request.scope@ == scope
                }
        },
{
    lemma_waits(journal, scope, ids, 0);
}

/// The check of what an operation waits for, from one position on.
proof fn lemma_waits(journal: JournalView, scope: ScopeView, ids: Seq<Id>, from: int)
    requires
        0 <= from <= ids.len(),
    ensures
        crate::journal::queue::prerequisite_refusal(journal, scope, ids, from) is None <==> {
            &&& forall|i: int, j: int| 0 <= i < j < ids.len() && from <= j ==> ids[i] != ids[j]
            &&& forall|i: int|
                from <= i < ids.len() ==> if journal.uploads.contains_key(#[trigger] ids[i]) {
                    journal.uploads[ids[i]].scope@ == scope
                } else {
                    journal.mutations.contains_key(ids[i])
                        && journal.mutations[ids[i]].request.scope@ == scope
                }
        },
    decreases ids.len() - from,
{
    if from < ids.len() {
        lemma_waits(journal, scope, ids, from + 1);
        let before = ids.subrange(0, from);
        if before.contains(ids[from]) {
            let i = choose|i: int| 0 <= i < before.len() && before[i] == ids[from];
            assert(ids[i] == ids[from]);
        } else {
            assert forall|i: int| 0 <= i < from implies ids[i] != ids[from] by {
                assert(before[i] == ids[i]);
            }
        }
    }
}

/// Pages hold at least one row and at most a thousand, and as many as were asked for in
/// between. Pages of a queue go on behind the place that was asked for.
pub proof fn pages_are_bounded(
    limit: u32,
    after: u64,
    id: Id,
    upload: UploadRecord,
    change: MutationRecord,
)
    ensures
        1 <= page_limit(limit) <= 1000,
        1 <= limit <= 1000 ==> page_limit(limit) == limit,
        uploads_behind(after)(id, upload) <==> upload.sequence > after,
        mutations_behind(after)(id, change) <==> change.sequence > after,
        stuck_rows()(id, change) <==> change.state == MutationState::Conflict || change.state
            == MutationState::Failed || change.state == MutationState::NeedsReview,
{
}

/// Only the bytes of acknowledged uploads that are still stored are collected, and a
/// payload can be read exactly once its digest is known.
pub proof fn payloads_are_kept_until_acknowledged(journal: JournalView, id: Id, record: UploadRecord)
    ensures
        collectable(journal)(id, record) <==> record.state == UploadState::Uploaded
            && !journal.collected.contains_key(id),
        payload_refusal(record) <==> record.state == UploadState::Preparing
            || vstd::utf8::encode_utf8(record.sha256@).len() != 64,
{
}

/// An object has nothing local left to send exactly where it is still its own, its stream
/// holds nothing new, every operation on it is confirmed, and what it knows of the
/// provider is the receipt of the latest.
pub proof fn clean_objects_have_nothing_to_send(journal: JournalView, object: NamespaceObject)
    ensures
        cleanliness(journal, object) == Ok::<bool, JournalError>(true) ==> {
            &&& object.scope.account@ == journal.account
            &&& !object.follows_remote && !object.unlinked && object.remote is Some
            &&& object.working_file matches Some(stream) ==> journal.working.contains_key(stream)
                && !journal.working[stream].dirty && journal.working[stream].latest
                == object.latest && journal.working[stream].node@ == object.node@
            &&& forall|operation: Id| #[trigger]
                journal.operations.contains_key(operation) && journal.operations[operation]
                    == object.id ==> if journal.uploads.contains_key(operation) {
                    journal.uploads[operation].state == UploadState::Uploaded
                } else {
                    journal.mutations.contains_key(operation) && journal.mutations[operation].state
                        == MutationState::Applied
                }
            &&& object.latest is Some && journal.uploads.contains_key(object.latest->0) ==> {
                let latest = journal.uploads[object.latest->0];
                &&& latest.remote is Some
                &&& latest.remote->0@ == object.remote->0@
                &&& latest.sequence == object.remote_sequence
            }
        },
        (object.scope.account@ == journal.account && !object.follows_remote && !object.unlinked
            && object.remote is Some && object.working_file is None && object.latest is None
            && forall|operation: Id| #[trigger]
            journal.operations.contains_key(operation) ==> journal.operations[operation]
                != object.id) ==> cleanliness(journal, object) == Ok::<bool, JournalError>(true),
        is_candidate(journal, None, object.id) <==> journal.objects.contains_key(object.id)
            && !journal.objects[object.id].follows_remote,
{
    if cleanliness(journal, object) == Ok::<bool, JournalError>(true) {
        assert forall|operation: Id| #[trigger]
            journal.operations.contains_key(operation) && journal.operations[operation]
                == object.id implies if journal.uploads.contains_key(operation) {
            journal.uploads[operation].state == UploadState::Uploaded
        } else {
            journal.mutations.contains_key(operation) && journal.mutations[operation].state
                == MutationState::Applied
        } by {
            assert(crate::journal::handoff::is_confirmed(journal, operation));
        }
    }
}

/// A captured entry of a path is known as the provider has it and follows the provider:
/// no operation is queued for it, and an entry that somebody has changed locally stays as
/// it is.
pub proof fn captured_entries_follow_the_provider(
    journal: JournalView,
    count: int,
    id: Id,
    scope: Scope,
    node: Node,
)
    ensures
        entry_captured(journal, routes(journal.objects), count, id, scope, node) matches Ok(
            (after, more),
        ) ==> {
            &&& scope.account@ == journal.account
            &&& after.uploads == journal.uploads && after.mutations == journal.mutations
                && after.queue == journal.queue && after.working == journal.working
            &&& match local_object(journal.objects, scope@, node.id@) {
                None => {
                    &&& after.objects.contains_key(id)
                    &&& after.objects == journal.objects.insert(id, after.objects[id])
                    &&& after.objects[id].follows_remote && after.objects[id].remote_owned
                        && !after.objects[id].unlinked
                    &&& after.objects[id].node.id == node.id && after.objects[id].node.name
                        == node.name && after.objects[id].node.kind == node.kind
                    &&& after.objects[id].remote is Some && after.objects[id].remote->0.id == node.id
                    &&& after.objects[id].latest is None && after.objects[id].working_file is None
                    &&& more == count + 1
                },
                Some(known) => {
                    &&& !known.unlinked && known.node.kind == node.kind
                    &&& !known.follows_remote ==> after.objects == journal.objects
                    &&& more == count
                    &&& after.objects == journal.objects || (after.objects
                        == journal.objects.insert(known.id, after.objects[known.id])
                        && after.objects[known.id].node.name == node.name
                        && after.objects[known.id].remote is Some
                        && after.objects[known.id].remote->0.id == known.remote->0.id
                        && after.objects[known.id].follows_remote)
                },
            }
        },
{
    lookups_find_what_is_there(journal, scope@, node.id@, id);
}

/// What is kept of the way to local changes: the live objects, and every folder above one
/// of them. Nothing else is kept as a route but links, and no removed folder.
pub proof fn ways_to_local_changes_are_kept(
    objects: Map<Id, NamespaceObject>,
    id: Id,
    folder: Id,
)
    requires
        objects.contains_key(id),
    ensures
        !objects[id].follows_remote && !objects[id].unlinked ==> retained(objects, id),
        (retained(objects, id) && objects.contains_key(folder) && !objects[folder].unlinked
            && objects[folder].node.kind == NodeKind::Folder && objects[folder].scope@
            == objects[id].scope@ && objects[id].node.parent_id is Some
            && objects[id].node.parent_id->0@ == objects[folder].node.id@) ==> retained(
            objects,
            folder,
        ),
        retained(objects, id) ==> routes(objects).objects.contains(id),
        retained(objects, id) && objects[id].node.kind == NodeKind::Folder ==> routes(
            objects,
        ).directories.contains((objects[id].scope@, objects[id].node.id@)),
        objects[id].unlinked && objects[id].follows_remote ==> !retained(objects, id),
{
    if !objects[id].follows_remote && !objects[id].unlinked {
        assert(crate::journal::ancestry::reached(objects, id, 0));
    }
    if retained(objects, id) {
        let steps = choose|steps: nat| crate::journal::ancestry::reached(objects, id, steps);
        if objects.contains_key(folder) && !objects[folder].unlinked && objects[folder].node.kind
            == NodeKind::Folder && objects[folder].scope@ == objects[id].scope@
            && objects[id].node.parent_id is Some && objects[id].node.parent_id->0@
            == objects[folder].node.id@ {
            assert(crate::journal::ancestry::leads_in(objects, id, folder));
            assert(crate::journal::ancestry::reached(objects, folder, steps + 1));
        }
        if objects[id].unlinked && objects[id].follows_remote {
            if steps > 0 {
                let from = choose|from: Id|
                    crate::journal::ancestry::reached(objects, from, (steps - 1) as nat)
                        && #[trigger] crate::journal::ancestry::leads_in(objects, from, id);
                assert(crate::journal::ancestry::leads_in(objects, from, id));
            }
        }
    }
}

/// What is left of a quota is what is not used of it, and never less than nothing.
pub proof fn quotas_are_what_is_left(quota: u64, retained: u64)
    ensures
        retained <= quota ==> left(quota, retained) + retained == quota,
        retained > quota ==> left(quota, retained) == 0,
{
}

} // verus!
