//! Local directories and fan-out destination dependencies, separate from a file's
//! linear content predecessor. No provider call may receive a local identity.
use crate::journal::generations::{
    answered, based, confirmed_of, find, form_to_check, place_of, scope_of, to_check, Operation,
};
use crate::journal::listing::{listing, select};
use crate::journal::mutations::{
    mutation_enqueued, mutation_queued, new_mutation, pending_mutation,
};
use crate::journal::namespace::{
    bumped, local_object, next_revision, remote_object, rule, save_step, with_rule, OBJECT_LIMIT,
};
use crate::journal::queue::{
    claim_all, claimed, mutation_keys, mutation_resources, stepped, upload_keys, upload_resources,
};
use crate::journal::records::{
    Destination, JournalError, JournalView, MutationRecord, MutationState, NamespaceNames,
    NamespaceObject, QueueRow, UploadJournal, UploadRecord, UploadState,
};
use crate::model::{
    copy_node, Id, MutationIntent, MutationRequest, Node, NodeKind, Scope, ScopeView, UploadIntent,
};
use crate::outside::{fresh_id, id_text, now_seconds, write_id};
use crate::text::{optional_is, optional_view};
use vstd::prelude::*;

verus! {

/// How many ready destinations are resolved in one pass.
pub const DESTINATION_BATCH: usize = 256;

/// The local identity of a provider folder, where a linked object has one.
pub open spec fn local_parent(journal: JournalView, scope: ScopeView, parent: String) -> String {
    match remote_object(journal.objects, scope, parent@) {
        Some(object) => if object.node.kind == NodeKind::Folder && !object.unlinked {
            object.node.id
        } else {
            parent
        },
        None => parent,
    }
}

/// The node below the local identity of its parent.
pub open spec fn localized(journal: JournalView, scope: ScopeView, node: Node) -> Node {
    Node {
        parent_id: match node.parent_id {
            Some(parent) => Some(local_parent(journal, scope, parent)),
            None => None,
        },
        ..node
    }
}

/// A new local directory and its remote creation, committed together.
pub open spec fn creation_committed(
    journal: JournalView,
    object: NamespaceObject,
    mutation: MutationRecord,
) -> Result<JournalView, JournalError> {
    match mutation.request.intent {
        MutationIntent::CreateFolder { parent, name } => if object.node.kind != NodeKind::Folder
            || object.remote is Some || object.working_file is Some || object.latest is Some
            || optional_view(object.node.parent_id) != Some(parent@) || object.node.name@ != name@
            || object.scope@ != mutation.request.scope@ || mutation.base is Some {
            Err(JournalError::Stale)
        } else {
            save_step(
                with_rule(journal, object.scope@),
                NamespaceObject { latest: Some(mutation.id), ..object },
            )
        },
        _ => Err(JournalError::Intent),
    }
}

/// A folder that only this account knows.
pub open spec fn new_directory(
    id: Id,
    identity: String,
    now: u64,
    scope: Scope,
    names: NamespaceNames,
    parent: String,
    name: String,
) -> NamespaceObject {
    NamespaceObject {
        id,
        scope,
        names,
        node: Node {
            id: identity,
            parent_id: Some(parent),
            name,
            kind: NodeKind::Folder,
            size: 0,
            modified_unix: now,
            etag: None,
            content_version: None,
            target: None,
        },
        remote: None,
        remote_owned: true,
        remote_sequence: 0,
        working_file: None,
        latest: None,
        revision: 0,
        follows_remote: false,
        unlinked: false,
    }
}

/// A local directory is created. `valid` is the verdict on the request.
pub open spec fn directory_created(
    journal: JournalView,
    id: Id,
    operation: Id,
    identity: String,
    now: u64,
    scope: Scope,
    parent: String,
    name: String,
    valid: bool,
) -> Result<(JournalView, NamespaceObject), JournalError> {
    if scope.account@ != journal.account {
        Err(JournalError::Account)
    } else if !valid {
        Err(JournalError::Intent)
    } else if journal.objects.len() >= OBJECT_LIMIT {
        Err(JournalError::Quota)
    } else {
        match rule(journal, scope@) {
            Err(error) => Err(error),
            Ok(names) => {
                let object = new_directory(id, identity, now, scope, names, parent, name);
                let request = MutationRequest {
                    scope,
                    intent: MutationIntent::CreateFolder { parent, name },
                };
                match mutation_enqueued(journal, operation, request, None, Seq::empty(), None) {
                    Err(error) => Err(error),
                    Ok((queued, record)) => match creation_committed(queued, object, record) {
                        Err(error) => Err(error),
                        Ok(state) => Ok(
                            (state, NamespaceObject { latest: Some(operation), ..object }),
                        ),
                    },
                }
            },
        }
    }
}

/// The local identity of a directory.
pub open spec fn directory_identity(id: Id) -> Seq<char> {
    "local-directory-"@ + id_text(id)
}

/// The object still has something below it that only the journal knows.
pub open spec fn has_children(journal: JournalView, object: NamespaceObject) -> bool {
    exists|id: Id| #[trigger]
        journal.objects.contains_key(id) && !journal.objects[id].unlinked && journal.objects[id].id
            != object.id && journal.objects[id].scope@ == object.scope@ && optional_view(
            journal.objects[id].node.parent_id,
        ) == Some(object.node.id@)
}

/// The object and the request with which a directory would be removed.
pub open spec fn removal_plan(journal: JournalView, id: Id, revision: u64) -> Result<
    (NamespaceObject, MutationRequest),
    JournalError,
> {
    if !journal.objects.contains_key(id) {
        Err(JournalError::Missing)
    } else {
        let object = journal.objects[id];
        if object.scope.account@ != journal.account {
            Err(JournalError::Account)
        } else if object.unlinked || object.follows_remote || object.revision != revision {
            Err(JournalError::Stale)
        } else if object.node.kind != NodeKind::Folder || object.node.target is Some
            || object.working_file is Some || has_children(journal, object) {
            Err(JournalError::Intent)
        } else if object.latest is None && object.remote is None {
            Err(JournalError::Stale)
        } else {
            let before = if object.latest is Some {
                object.node
            } else {
                object.remote->0
            };
            Ok(
                (
                    object,
                    MutationRequest {
                        scope: object.scope,
                        intent: MutationIntent::RemoveFolder { before },
                    },
                ),
            )
        }
    }
}

/// A directory whose name is released and whose remote removal is queued.
#[derive(Debug)]
pub struct RemovedDirectory {
    pub object: NamespaceObject,
    pub mutation: MutationRecord,
}

/// A directory's name is released and its remote removal is queued.
pub open spec fn directory_removed(
    journal: JournalView,
    operation: Id,
    id: Id,
    revision: u64,
    valid: bool,
) -> Result<(JournalView, RemovedDirectory), JournalError> {
    match removal_plan(journal, id, revision) {
        Err(error) => Err(error),
        Ok((object, request)) => match based(journal, object.latest, request, valid) {
            Err(error) => Err(error),
            Ok(base) => match bumped(
                NamespaceObject { unlinked: true, latest: Some(operation), ..object },
            ) {
                Err(error) => Err(error),
                Ok(released) => match mutation_queued(
                    journal,
                    new_mutation(operation, request, base, None, true),
                    Seq::empty(),
                ) {
                    Err(error) => Err(error),
                    Ok((queued, mutation)) => match save_step(queued, released) {
                        Err(error) => Err(error),
                        Ok(state) => Ok((state, RemovedDirectory { object: released, mutation })),
                    },
                },
            },
        },
    }
}

/// Why an object cannot follow a provider's node.
pub open spec fn follow_node_refusal(object: NamespaceObject, remote: Node, valid: bool) -> Option<
    JournalError,
> {
    if object.unlinked || !object.remote_owned || object.remote is None || object.remote->0.id@
        != remote.id@ || remote.kind != object.node.kind || remote.kind == NodeKind::Shortcut
        || remote.target is Some {
        Some(JournalError::Stale)
    } else if remote.parent_id is None || !valid {
        Some(JournalError::Intent)
    } else if object.revision == u64::MAX {
        Some(JournalError::Quota)
    } else {
        None
    }
}

/// The object with the provider's node as its presentation, under its own identity.
pub open spec fn following_node(object: NamespaceObject, remote: Node) -> NamespaceObject {
    NamespaceObject {
        node: Node { id: object.node.id, ..remote },
        remote: Some(remote),
        working_file: None,
        latest: None,
        follows_remote: true,
        revision: (object.revision + 1) as u64,
        ..object
    }
}

/// The request whose verdict decides whether an object may follow a node.
pub open spec fn follow_request(object: NamespaceObject, remote: Node) -> MutationRequest {
    MutationRequest {
        scope: object.scope,
        intent: MutationIntent::Relocate {
            before: remote,
            parent: remote.parent_id->0,
            name: remote.name,
        },
    }
}

impl NamespaceObject {
    /// The request whose verdict decides whether the object may follow a node.
    pub fn following_request(&self, remote: &Node) -> (request: Option<MutationRequest>)
        ensures
            match request {
                Some(form) => remote.parent_id is Some && form == follow_request(*self, *remote),
                None => remote.parent_id is None,
            },
    {
        match &remote.parent_id {
            Some(parent) => Some(
                MutationRequest {
                    scope: self.scope.clone(),
                    intent: MutationIntent::Relocate {
                        before: remote.clone(),
                        parent: parent.clone(),
                        name: remote.name.clone(),
                    },
                },
            ),
            None => None,
        }
    }

    /// The object with the provider's node as its presentation. Only an idle, fully
    /// acknowledged object may enter this state. `valid` is the verdict on
    /// `following_request`.
    pub fn followed(&self, remote: Node, valid: bool) -> (result: Result<
        NamespaceObject,
        JournalError,
    >)
        ensures
            match result {
                Ok(object) => follow_node_refusal(*self, remote, valid) is None && object
                    == following_node(*self, remote),
                Err(error) => follow_node_refusal(*self, remote, valid) == Some(error),
            },
    {
        let same = match &self.remote {
            Some(old) => old.id == remote.id,
            None => false,
        };
        if self.unlinked || !self.remote_owned || !same || remote.kind != self.node.kind
            || remote.kind == NodeKind::Shortcut || remote.target.is_some() {
            return Err(JournalError::Stale);
        }
        if remote.parent_id.is_none() || !valid {
            return Err(JournalError::Intent);
        }
        if self.revision == u64::MAX {
            return Err(JournalError::Quota);
        }
        let mut object = self.clone();
        object.node = remote.clone();
        object.node.id = self.node.id.clone();
        object.remote = Some(remote);
        object.working_file = None;
        object.latest = None;
        object.follows_remote = true;
        object.revision = self.revision + 1;
        Ok(object)
    }
}

/// The provider identity of a local folder.
pub open spec fn provider_identity(journal: JournalView, scope: ScopeView, parent: Seq<char>) -> Result<
    Seq<char>,
    JournalError,
> {
    match local_object(journal.objects, scope, parent) {
        Some(object) => if object.node.kind == NodeKind::Folder && !object.unlinked {
            match object.remote {
                Some(remote) => Ok(remote.id@),
                None => Err(JournalError::Stale),
            }
        } else {
            Err(JournalError::Intent)
        },
        None => Ok(parent),
    }
}

/// The provider's folder that a destination has become.
pub open spec fn arrived(journal: JournalView, destination: Destination, operation: Operation) -> Result<
    Option<Node>,
    JournalError,
> {
    let candidate = match destination.predecessor {
        Some(previous) => match find(journal, previous) {
            None => Err(JournalError::Missing),
            Some(before) => if journal.operations.contains_key(previous)
                && journal.operations[previous] == destination.parent && scope_of(before)
                == scope_of(operation) && place_of(before) < place_of(operation) {
                Ok(confirmed_of(before))
            } else {
                Ok(None)
            },
        },
        None => Ok(journal.objects[destination.parent].remote),
    };
    match candidate {
        Err(error) => Err(error),
        Ok(None) => Ok(None),
        Ok(Some(node)) => if node.kind == NodeKind::Folder && node.target is None && node.id@.len()
            > 0 {
            Ok(Some(node))
        } else {
            Ok(None)
        },
    }
}

/// The destination is settled.
pub open spec fn settled(journal: JournalView, id: Id) -> JournalView {
    JournalView {
        destinations: journal.destinations.insert(
            id,
            Destination { resolved: true, ..journal.destinations[id] },
        ),
        ..journal
    }
}

/// An upload gets the provider's folder as its parent, or fails.
pub open spec fn upload_directed(journal: JournalView, id: Id, record: UploadRecord, folder: Option<Node>) -> Result<
    JournalView,
    JournalError,
> {
    match record.intent {
        UploadIntent::Create { name, .. } => {
            let directed = match folder {
                Some(node) => UploadRecord {
                    intent: UploadIntent::Create { parent: node.id, name },
                    ..record
                },
                None => UploadRecord { state: UploadState::Failed, ..record },
            };
            Ok(
                settled(
                    JournalView {
                        uploads: journal.uploads.insert(id, directed),
                        resources: journal.resources.union(
                            claimed(id, upload_keys(record.scope@, directed.intent)),
                        ),
                        ..journal
                    },
                    id,
                ),
            )
        },
        _ => Err(JournalError::Corrupt),
    }
}

/// The intent below another parent.
pub open spec fn below(intent: MutationIntent, parent: String) -> MutationIntent {
    match intent {
        MutationIntent::CreateFolder { name, .. } => MutationIntent::CreateFolder { parent, name },
        MutationIntent::Relocate { before, name, .. } => MutationIntent::Relocate {
            before,
            parent,
            name,
        },
        _ => intent,
    }
}

/// A namespace change gets the provider's folder as its destination, or fails.
pub open spec fn mutation_directed(
    journal: JournalView,
    id: Id,
    record: MutationRecord,
    folder: Option<Node>,
) -> Result<JournalView, JournalError> {
    if !(record.request.intent is CreateFolder || record.request.intent is Relocate) {
        Err(JournalError::Corrupt)
    } else {
        let directed = match folder {
            Some(node) => MutationRecord {
                request: MutationRequest {
                    intent: below(record.request.intent, node.id),
                    ..record.request
                },
                ..record
            },
            None => MutationRecord { state: MutationState::Failed, ..record },
        };
        match mutation_keys(directed.request) {
            Err(error) => Err(error),
            Ok(keys) => Ok(
                settled(
                    JournalView {
                        mutations: journal.mutations.insert(id, directed),
                        resources: journal.resources.union(claimed(id, keys)),
                        ..journal
                    },
                    id,
                ),
            ),
        }
    }
}

/// A queued operation gets the provider identity of its destination folder. No
/// provider call may receive a local identity.
pub open spec fn destination_resolved(journal: JournalView, id: Id) -> Result<
    JournalView,
    JournalError,
> {
    if !journal.destinations.contains_key(id) || journal.destinations[id].resolved {
        Err(JournalError::Storage)
    } else {
        let destination = journal.destinations[id];
        if !journal.objects.contains_key(destination.parent) {
            Err(JournalError::Missing)
        } else {
            match find(journal, id) {
                None => Err(JournalError::Missing),
                Some(operation) => match arrived(journal, destination, operation) {
                    Err(error) => Err(error),
                    Ok(folder) => {
                        let parent = journal.objects[destination.parent];
                        if parent.scope@ != scope_of(operation) || parent.node.kind
                            != NodeKind::Folder {
                            Err(JournalError::Corrupt)
                        } else {
                            match operation {
                                Operation::Upload(record) => upload_directed(
                                    journal,
                                    id,
                                    record,
                                    folder,
                                ),
                                Operation::Mutation(record) => mutation_directed(
                                    journal,
                                    id,
                                    record,
                                    folder,
                                ),
                            }
                        }
                    },
                },
            }
        }
    }
}

/// The destination of this unfinished operation can be resolved now.
pub open spec fn directable(journal: JournalView, id: Id, row: QueueRow) -> bool {
    &&& !row.complete
    &&& journal.destinations.contains_key(id)
    &&& !journal.destinations[id].resolved
    &&& match journal.destinations[id].predecessor {
        Some(before) => journal.queue.contains_key(before) && journal.queue[before].complete,
        None => true,
    }
}

/// The operations whose destination can be resolved now.
pub open spec fn directable_rows(journal: JournalView) -> spec_fn(Id, QueueRow) -> bool {
    |id: Id, row: QueueRow| directable(journal, id, row)
}

/// The destinations of some operations are resolved, one after the other, up to the
/// first that refuses.
pub open spec fn directed_all(journal: JournalView, rows: Seq<(u64, Id)>) -> (
    JournalView,
    Option<JournalError>,
)
    decreases rows.len(),
{
    if rows.len() == 0 {
        (journal, None)
    } else {
        match destination_resolved(journal, rows[0].1) {
            Err(error) => (journal, Some(error)),
            Ok(state) => directed_all(state, rows.drop_first()),
        }
    }
}

/// The first rows, up to a limit.
pub open spec fn batch(rows: Seq<(u64, Id)>, limit: int) -> Seq<(u64, Id)> {
    rows.subrange(
        0,
        if rows.len() < limit {
            rows.len() as int
        } else {
            limit
        },
    )
}

/// No destination can be resolved now.
pub open spec fn all_directed(journal: JournalView) -> bool {
    forall|id: Id| !(#[trigger] journal.queue.contains_key(id) && directable(
        journal,
        id,
        journal.queue[id],
    ))
}

impl UploadJournal {
    /// The node below the local identity of its parent.
    pub fn localize_parent(&self, scope: &Scope, node: &mut Node)
        ensures
            *final(node) == localized(self@, scope@, *old(node)),
    {
        let local = match &node.parent_id {
            Some(parent) => match self.namespace_by_remote(scope, parent.as_str()) {
                Some(object) => {
                    if object.node.kind == NodeKind::Folder && !object.unlinked {
                        object.node.id
                    } else {
                        parent.clone()
                    }
                },
                None => parent.clone(),
            },
            None => {
                return;
            },
        };
        node.parent_id = Some(local);
    }

    /// Saves a new local directory together with its queued creation.
    fn commit_creation(&mut self, object: NamespaceObject, mutation: &MutationRecord) -> (result:
        Result<(), JournalError>)
        ensures
            stepped(creation_committed(old(self)@, object, *mutation), result, old(self)@, final(self)@),
    {
        let (parent, name) = match &mutation.request.intent {
            MutationIntent::CreateFolder { parent, name } => (parent, name),
            _ => {
                return Err(JournalError::Intent);
            },
        };
        if object.node.kind != NodeKind::Folder || object.remote.is_some()
            || object.working_file.is_some() || object.latest.is_some() || !optional_is(
            &object.node.parent_id,
            parent.as_str(),
        ) || object.node.name != *name || !object.scope.same(&mutation.request.scope)
            || mutation.base.is_some() {
            return Err(JournalError::Stale);
        }
        let mut tx = self.copy();
        tx.ensure_policy(&object.scope);
        let mut object = object;
        object.latest = Some(mutation.id);
        tx.save_object(object)?;
        *self = tx;
        Ok(())
    }

    /// Creates a local directory under given identities at a given second.
    pub fn create_directory_as(
        &mut self,
        id: Id,
        operation: Id,
        identity: String,
        now: u64,
        scope: Scope,
        parent: String,
        name: String,
        valid: bool,
    ) -> (result: Result<NamespaceObject, JournalError>)
        ensures
            answered(
                directory_created(
                    old(self)@,
                    id,
                    operation,
                    identity,
                    now,
                    scope,
                    parent,
                    name,
                    valid,
                ),
                result,
                old(self)@,
                final(self)@,
            ),
    {
        if scope.account != self.account {
            return Err(JournalError::Account);
        }
        if !valid {
            return Err(JournalError::Intent);
        }
        if self.objects.len() >= OBJECT_LIMIT {
            return Err(JournalError::Quota);
        }
        let names = self.policy(&scope)?;
        let request = MutationRequest {
            scope: scope.clone(),
            intent: MutationIntent::CreateFolder { parent: parent.clone(), name: name.clone() },
        };
        let mut object = NamespaceObject {
            id,
            scope,
            names,
            node: Node {
                id: identity,
                parent_id: Some(parent),
                name,
                kind: NodeKind::Folder,
                size: 0,
                modified_unix: now,
                etag: None,
                content_version: None,
                target: None,
            },
            remote: None,
            remote_owned: true,
            remote_sequence: 0,
            working_file: None,
            latest: None,
            revision: 0,
            follows_remote: false,
            unlinked: false,
        };
        let mut tx = self.copy();
        let none: Vec<Id> = Vec::new();
        let record = tx.enqueue_mutation_transaction(operation, request, None, &none, None)?;
        tx.commit_creation(object.clone(), &record)?;
        *self = tx;
        object.latest = Some(operation);
        Ok(object)
    }

    /// Commits a local directory and its remote creation together. Children use this
    /// stable local identity before and after the provider assigns one. `valid` is
    /// the verdict on the request.
    pub fn create_namespace_directory(
        &mut self,
        scope: Scope,
        parent: String,
        name: String,
        valid: bool,
    ) -> (result: Result<NamespaceObject, JournalError>)
        ensures
            exists|id: Id, operation: Id, identity: String, now: u64|
                identity@ == directory_identity(id) && answered(
                    #[trigger] directory_created(
                        old(self)@,
                        id,
                        operation,
                        identity,
                        now,
                        scope,
                        parent,
                        name,
                        valid,
                    ),
                    result,
                    old(self)@,
                    final(self)@,
                ),
    {
        let id = fresh_id();
        let operation = fresh_id();
        let now = now_seconds();
        let mut identity = "local-directory-".to_string();
        identity.append(write_id(id).as_str());
        self.create_directory_as(id, operation, identity, now, scope, parent, name, valid)
    }

    /// Whether a directory has something below it that only the journal knows.
    fn holds_children(&self, object: &NamespaceObject) -> (found: bool)
        ensures
            found == has_children(self@, *object),
    {
        let ids = self.objects.ids();
        let mut i: usize = 0;
        while i < ids.len()
            invariant
                i <= ids@.len(),
                forall|id: Id| ids@.contains(id) <==> self@.objects.contains_key(id),
                forall|j: int| 0 <= j < ids@.len() ==> self@.objects.contains_key(#[trigger] ids@[j]),
                forall|j: int|
                    #![trigger ids@[j]]
                    0 <= j < i ==> !(!self@.objects[ids@[j]].unlinked && self@.objects[ids@[j]].id
                        != object.id && self@.objects[ids@[j]].scope@ == object.scope@
                        && optional_view(self@.objects[ids@[j]].node.parent_id) == Some(
                        object.node.id@,
                    )),
            decreases ids@.len() - i,
        {
            assert(self@.objects.contains_key(ids@[i as int]));
            if let Some(child) = self.objects.get(ids[i]) {
                if !child.unlinked && child.id != object.id && child.scope.same(&object.scope)
                    && optional_is(&child.node.parent_id, object.node.id.as_str()) {
                    return true;
                }
            }
            i = i + 1;
        }
        proof {
            assert forall|id: Id| #[trigger] self@.objects.contains_key(id) implies !(
            !self@.objects[id].unlinked && self@.objects[id].id != object.id
                && self@.objects[id].scope@ == object.scope@ && optional_view(
                self@.objects[id].node.parent_id,
            ) == Some(object.node.id@)) by {
                assert(ids@.contains(id));
                let j = choose|j: int| 0 <= j < ids@.len() && ids@[j] == id;
                assert(ids@[j] == id);
            }
        }
        false
    }

    /// The object and the request with which a directory would be removed.
    fn plan_removal(&self, id: Id, revision: u64) -> (result: Result<
        (NamespaceObject, MutationRequest),
        JournalError,
    >)
        ensures
            result == removal_plan(self@, id, revision),
    {
        let object = self.namespace_object(id)?;
        if object.scope.account != self.account {
            return Err(JournalError::Account);
        }
        if object.unlinked || object.follows_remote || object.revision != revision {
            return Err(JournalError::Stale);
        }
        if object.node.kind != NodeKind::Folder || object.node.target.is_some()
            || object.working_file.is_some() || self.holds_children(&object) {
            return Err(JournalError::Intent);
        }
        let before = if object.latest.is_some() {
            object.node.clone()
        } else {
            match &object.remote {
                Some(remote) => remote.clone(),
                None => {
                    return Err(JournalError::Stale);
                },
            }
        };
        let request = MutationRequest {
            scope: object.scope.clone(),
            intent: MutationIntent::RemoveFolder { before },
        };
        Ok((object, request))
    }

    /// The request on which the removal of a directory needs a verdict.
    pub fn directory_removal(&self, id: Id, revision: u64) -> (result: Result<
        MutationRequest,
        JournalError,
    >)
        ensures
            match (removal_plan(self@, id, revision), result) {
                (Ok((object, request)), Ok(form)) => to_check(object.latest, request, form),
                (Err(wanted), Err(error)) => wanted == error,
                _ => false,
            },
    {
        let (object, request) = self.plan_removal(id, revision)?;
        Ok(form_to_check(object.latest, &request))
    }

    /// Removes a directory under a given operation.
    pub fn remove_directory_as(&mut self, operation: Id, id: Id, revision: u64, valid: bool) -> (result:
        Result<RemovedDirectory, JournalError>)
        ensures
            answered(
                directory_removed(old(self)@, operation, id, revision, valid),
                result,
                old(self)@,
                final(self)@,
            ),
    {
        let (mut object, request) = self.plan_removal(id, revision)?;
        let base = self.base_for(object.latest, &request, valid)?;
        object.unlinked = true;
        object.latest = Some(operation);
        next_revision(&mut object)?;
        let record = pending_mutation(operation, request, base, None, true);
        let none: Vec<Id> = Vec::new();
        let mut tx = self.copy();
        let mutation = tx.queue_mutation(record, &none)?;
        tx.save_object(object.clone())?;
        *self = tx;
        Ok(RemovedDirectory { object, mutation })
    }

    /// Releases a directory name and queues its conditional remote removal. Never
    /// recursive. Emptiness at the provider is checked immediately before the
    /// deletion; what is checked here is the half that the provider cannot see.
    /// `valid` is the verdict on `directory_removal`.
    pub fn remove_namespace_directory(&mut self, id: Id, revision: u64, valid: bool) -> (result: Result<
        RemovedDirectory,
        JournalError,
    >)
        ensures
            exists|operation: Id|
                answered(
                    #[trigger] directory_removed(old(self)@, operation, id, revision, valid),
                    result,
                    old(self)@,
                    final(self)@,
                ),
    {
        self.remove_directory_as(fresh_id(), id, revision, valid)
    }

    /// The object with the provider's node as its presentation, below the local
    /// identity of its parent.
    pub fn following_namespace(&self, object: &NamespaceObject, remote: Node, valid: bool) -> (result:
        Result<NamespaceObject, JournalError>)
        ensures
            match result {
                Ok(followed) => follow_node_refusal(*object, remote, valid) is None && followed == (
                NamespaceObject {
                    node: localized(self@, object.scope@, following_node(*object, remote).node),
                    ..following_node(*object, remote)
                }),
                Err(error) => follow_node_refusal(*object, remote, valid) == Some(error),
            },
    {
        let mut followed = object.followed(remote, valid)?;
        let mut node = followed.node.clone();
        self.localize_parent(&followed.scope, &mut node);
        followed.node = node;
        Ok(followed)
    }

    /// The provider identity of a local folder; a provider's folder is its own.
    pub fn provider_parent(&self, scope: &Scope, parent: &String) -> (result: Result<
        String,
        JournalError,
    >)
        ensures
            match (provider_identity(self@, scope@, parent@), result) {
                (Ok(wanted), Ok(found)) => found@ == wanted,
                (Err(wanted), Err(error)) => wanted == error,
                _ => false,
            },
    {
        match self.namespace_by_local(scope, parent.as_str()) {
            Some(object) => {
                if object.node.kind == NodeKind::Folder && !object.unlinked {
                    match object.remote {
                        Some(remote) => Ok(remote.id),
                        None => Err(JournalError::Stale),
                    }
                } else {
                    Err(JournalError::Intent)
                }
            },
            None => Ok(parent.clone()),
        }
    }

    /// The provider's folder that a destination has become.
    fn arrival(&self, destination: &Destination, operation: &Operation) -> (result: Result<
        Option<Node>,
        JournalError,
    >)
        requires
            self@.objects.contains_key(destination.parent),
        ensures
            result == arrived(self@, *destination, *operation),
    {
        let candidate: Option<Node> = match destination.predecessor {
            Some(previous) => {
                let bound = match self.operations.get(previous) {
                    Some(object) => *object == destination.parent,
                    None => false,
                };
                let before = self.operation(previous)?;
                if bound && before.scope().same(operation.scope()) && before.sequence()
                    < operation.sequence() {
                    before.confirmed_node()
                } else {
                    None
                }
            },
            None => match self.objects.get(destination.parent) {
                Some(folder) => copy_node(&folder.remote),
                None => None,
            },
        };
        match candidate {
            Some(node) => {
                if node.kind == NodeKind::Folder && node.target.is_none() && !node.id.as_str().is_empty() {
                    Ok(Some(node))
                } else {
                    Ok(None)
                }
            },
            None => Ok(None),
        }
    }

    /// Settles a destination.
    fn settle_destination(&mut self, id: Id, destination: Destination)
        requires
            old(self)@.destinations.contains_key(id),
            old(self)@.destinations[id] == destination,
        ensures
            final(self)@ == settled(old(self)@, id),
    {
        self.destinations.put(
            id,
            Destination {
                parent: destination.parent,
                predecessor: destination.predecessor,
                resolved: true,
            },
        );
    }

    /// Gives a queued operation the provider identity of its destination folder.
    pub fn resolve_destination(&mut self, id: Id) -> (result: Result<(), JournalError>)
        ensures
            stepped(destination_resolved(old(self)@, id), result, old(self)@, final(self)@),
    {
        let destination = match self.destinations.get(id) {
            Some(destination) => *destination,
            None => {
                return Err(JournalError::Storage);
            },
        };
        if destination.resolved {
            return Err(JournalError::Storage);
        }
        let parent = self.namespace_object(destination.parent)?;
        let operation = self.operation(id)?;
        let folder = self.arrival(&destination, &operation)?;
        if !parent.scope.same(operation.scope()) || parent.node.kind != NodeKind::Folder {
            return Err(JournalError::Corrupt);
        }
        match operation {
            Operation::Upload(record) => {
                let mut record = record;
                let name = match &record.intent {
                    UploadIntent::Create { name, .. } => name.clone(),
                    _ => {
                        return Err(JournalError::Corrupt);
                    },
                };
                match folder {
                    Some(node) => {
                        record.intent = UploadIntent::Create { parent: node.id, name };
                    },
                    None => {
                        record.state = UploadState::Failed;
                    },
                }
                let keys = upload_resources(&record.scope, &record.intent);
                claim_all(&mut self.resources, id, keys);
                self.uploads.put(id, record);
            },
            Operation::Mutation(record) => {
                let mut record = record;
                match record.request.intent {
                    MutationIntent::CreateFolder { parent, name } => {
                        let parent = match folder {
                            Some(node) => node.id,
                            None => {
                                record.state = MutationState::Failed;
                                parent
                            },
                        };
                        record.request.intent = MutationIntent::CreateFolder { parent, name };
                    },
                    MutationIntent::Relocate { before, parent, name } => {
                        let parent = match folder {
                            Some(node) => node.id,
                            None => {
                                record.state = MutationState::Failed;
                                parent
                            },
                        };
                        record.request.intent = MutationIntent::Relocate { before, parent, name };
                    },
                    _ => {
                        return Err(JournalError::Corrupt);
                    },
                }
                let keys = mutation_resources(&record.request)?;
                claim_all(&mut self.resources, id, keys);
                self.mutations.put(id, record);
            },
        }
        self.settle_destination(id, destination);
        Ok(())
    }

    /// The operations whose destination can be resolved now, in order.
    pub fn ready_destinations(&self) -> (rows: Vec<(u64, Id)>)
        ensures
            listing(self@.queue, directable_rows(self@), rows@),
    {
        let keep = |id: Id, row: &QueueRow| -> (kept: bool)
            ensures
                kept == directable(self@, id, *row),
            {
                if row.complete {
                    return false;
                }
                match self.destinations.get(id) {
                    Some(destination) => {
                        if destination.resolved {
                            return false;
                        }
                        match destination.predecessor {
                            Some(before) => match self.queue.get(before) {
                                Some(row) => row.complete,
                                None => false,
                            },
                            None => true,
                        }
                    },
                    None => false,
                }
            };
        select(&self.queue, keep, Ghost(directable_rows(self@)))
    }

    /// Resolves the destinations that can be resolved now, a batch at a time, and says
    /// whether none is left.
    pub fn resolve_ready_destinations(&mut self) -> (result: Result<bool, JournalError>)
        ensures
            exists|rows: Seq<(u64, Id)>| #[trigger]
                listing(old(self)@.queue, directable_rows(old(self)@), rows) && {
                    let end = directed_all(old(self)@, batch(rows, DESTINATION_BATCH as int));
                    &&& final(self)@ == end.0
                    &&& match end.1 {
                        Some(error) => result == Err::<bool, JournalError>(error),
                        None => result == Ok::<bool, JournalError>(all_directed(final(self)@)),
                    }
                },
    {
        let rows = self.ready_destinations();
        let ghost start = self@;
        let limit: usize = if rows.len() < DESTINATION_BATCH {
            rows.len()
        } else {
            DESTINATION_BATCH
        };
        let ghost part = batch(rows@, DESTINATION_BATCH as int);
        let mut i: usize = 0;
        proof {
            assert(part.subrange(0, part.len() as int) =~= part);
        }
        while i < limit
            invariant
                i <= limit == part.len(),
                part == batch(rows@, DESTINATION_BATCH as int),
                start == old(self)@,
                listing(start.queue, directable_rows(start), rows@),
                directed_all(start, part) == directed_all(
                    self@,
                    part.subrange(i as int, part.len() as int),
                ),
                limit <= rows@.len(),
            decreases limit - i,
        {
            proof {
                let rest = part.subrange(i as int, part.len() as int);
                assert(rest[0] == rows@[i as int]);
                assert(rest.drop_first() =~= part.subrange(i + 1, part.len() as int));
            }
            self.resolve_destination(rows[i].1)?;
            i = i + 1;
        }
        let left = self.ready_destinations();
        proof {
            crate::journal::listing::lemma_head(self@.queue, directable_rows(self@), left@);
            if left@.len() > 0 {
                let id = left@[0].1;
                assert(self@.queue.contains_key(id) && directable(self@, id, self@.queue[id]));
            } else {
                assert forall|id: Id| !(#[trigger] self@.queue.contains_key(id) && directable(
                    self@,
                    id,
                    self@.queue[id],
                )) by {
                    if self@.queue.contains_key(id) {
                        assert(!(directable_rows(self@))(id, self@.queue[id]));
                    }
                }
            }
        }
        Ok(left.len() == 0)
    }
}

} // verus!
