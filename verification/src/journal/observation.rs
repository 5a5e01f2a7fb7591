//! Local objects for provider files, and the working streams attached to them.
use crate::journal::directories::{localized};
use crate::journal::generations::answered;
use crate::journal::namespace::{
    bumped, first_where, is_first, lemma_first, local_object, next_revision, remote_object, rule,
    save_step, with_rule, OBJECT_LIMIT,
};
use crate::journal::queue::stepped;
use crate::journal::records::{
    JournalError, JournalView, MutationRecord, NamespaceNames, NamespaceObject, UploadJournal,
    WorkingFile,
};
use crate::journal::tables::increasing;
use crate::model::{
    content_revision, copy_node, node_view, Id, MutationIntent, Node, NodeKind, Scope,
};
use crate::outside::fresh_id;
use crate::text::{copy_optional, optional_is, optional_view};
use vstd::prelude::*;

verus! {

/// The name rules of a scope are chosen before its first local edit. Switching the
/// rules of a populated namespace would change existing identities.
pub open spec fn configured(journal: JournalView, scope: Scope, names: NamespaceNames) -> Result<
    JournalView,
    JournalError,
> {
    if scope.account@ != journal.account || scope.provider@.len() == 0 || scope.collection@.len()
        == 0 {
        Err(JournalError::Account)
    } else if journal.scopes.contains_key(scope@) {
        if journal.scopes[scope@] == names {
            Ok(journal)
        } else {
            Err(JournalError::Stale)
        }
    } else {
        Ok(JournalView { scopes: journal.scopes.insert(scope@, names), ..journal })
    }
}

/// An object that only presents a provider's node so far.
pub open spec fn observed_object(
    id: Id,
    scope: Scope,
    names: NamespaceNames,
    node: Node,
    remote: Option<Node>,
    latest: Option<Id>,
) -> NamespaceObject {
    NamespaceObject {
        id,
        scope,
        names,
        node,
        remote,
        remote_owned: true,
        remote_sequence: 0,
        working_file: None,
        latest,
        revision: 0,
        follows_remote: false,
        unlinked: false,
    }
}

/// An object that followed the provider takes its entry back.
pub open spec fn taken_back(journal: JournalView, object: NamespaceObject, node: Node) -> NamespaceObject {
    NamespaceObject {
        node: localized(journal, object.scope@, Node { id: object.node.id, ..node }),
        remote: Some(node),
        follows_remote: false,
        ..object
    }
}

/// The object owns this provider identity.
pub open spec fn is_bound(object: NamespaceObject, item: Seq<char>) -> bool {
    object.remote is Some && object.remote->0.id@ == item
}

/// A provider's file gets a local identity. `valid` is the verdict on a removal of
/// the node.
pub open spec fn file_observed(
    journal: JournalView,
    id: Id,
    scope: Scope,
    node: Node,
    valid: bool,
) -> Result<(JournalView, NamespaceObject), JournalError> {
    if scope.account@ != journal.account {
        Err(JournalError::Account)
    } else if node.kind != NodeKind::File || !valid {
        Err(JournalError::Intent)
    } else {
        match remote_object(journal.objects, scope@, node.id@) {
            Some(object) => if object.unlinked {
                Err(JournalError::Stale)
            } else if !object.follows_remote {
                Ok((journal, object))
            } else if object.working_file is Some || object.latest is Some || !is_bound(
                object,
                node.id@,
            ) {
                Err(JournalError::Stale)
            } else {
                match bumped(taken_back(journal, object, node)) {
                    Err(error) => Err(error),
                    Ok(next) => match save_step(journal, next) {
                        Err(error) => Err(error),
                        Ok(state) => Ok((state, next)),
                    },
                }
            },
            None => if journal.objects.len() >= OBJECT_LIMIT {
                Err(JournalError::Quota)
            } else {
                match rule(journal, scope@) {
                    Err(error) => Err(error),
                    Ok(names) => {
                        let object = observed_object(
                            id,
                            scope,
                            names,
                            localized(journal, scope@, node),
                            Some(node),
                            None,
                        );
                        match save_step(with_rule(journal, scope@), object) {
                            Err(error) => Err(error),
                            Ok(state) => Ok((state, object)),
                        }
                    },
                }
            },
        }
    }
}

/// An object that follows its provider is presented again from a hydrated source.
pub open spec fn presented(journal: JournalView, object: NamespaceObject, source: Option<Node>) -> Result<
    NamespaceObject,
    JournalError,
> {
    if !object.follows_remote {
        Ok(object)
    } else {
        match source {
            None => Err(JournalError::Stale),
            Some(source) => if object.latest is Some || !is_bound(object, source.id@) || source.kind
                != object.node.kind || source.target is Some {
                Err(JournalError::Stale)
            } else {
                Ok(
                    NamespaceObject {
                        remote: Some(source),
                        node: localized(
                            journal,
                            object.scope@,
                            Node {
                                name: source.name,
                                parent_id: source.parent_id,
                                ..object.node
                            },
                        ),
                        follows_remote: false,
                        ..object
                    },
                )
            },
        }
    }
}

/// Both nodes are known and name the same bytes.
pub open spec fn same_bytes(a: Option<Node>, b: Option<Node>) -> bool {
    a is Some && b is Some && a->0.size == b->0.size && content_revision(a->0@) == content_revision(
        b->0@,
    )
}

/// The object that a working stream belongs to. A hydrated stream names its provider source; a mutable provider binding is never
/// used to find the object of a local stream.
pub open spec fn home_of(journal: JournalView, working: WorkingFile) -> Option<NamespaceObject> {
    match working.initial_remote {
        Some(remote) => remote_object(journal.objects, working.scope@, remote.id@),
        None => local_object(journal.objects, working.scope@, working.node.id@),
    }
}

/// The object with which a working stream is kept, and the stream as it will be known.
/// Without an object to go to, the stream gets a new one.
pub open spec fn attachment(
    journal: JournalView,
    existing: Option<NamespaceObject>,
    working: WorkingFile,
) -> Result<(NamespaceObject, WorkingFile), JournalError> {
    match existing {
        Some(object) => if object.unlinked != working.unlinked || object.working_file is Some {
            Err(JournalError::Stale)
        } else {
            match presented(journal, object, working.initial_remote) {
                Err(error) => Err(error),
                Ok(object) => if object.node.kind != working.node.kind || !same_bytes(
                    object.remote,
                    working.initial_remote,
                ) {
                    Err(JournalError::Stale)
                } else {
                    Ok(
                        (
                            object,
                            WorkingFile {
                                node: Node {
                                    id: object.node.id,
                                    name: object.node.name,
                                    parent_id: object.node.parent_id,
                                    ..working.node
                                },
                                latest: object.latest,
                                initial_remote: object.remote,
                                ..working
                            },
                        ),
                    )
                },
            }
        },
        None => if journal.objects.len() >= OBJECT_LIMIT {
            Err(JournalError::Quota)
        } else {
            match rule(journal, working.scope@) {
                Err(error) => Err(error),
                Ok(names) => {
                    let node = if working.initial_remote is Some {
                        localized(journal, working.scope@, working.node)
                    } else {
                        working.node
                    };
                    Ok(
                        (
                            observed_object(
                                working.id,
                                working.scope,
                                names,
                                node,
                                working.initial_remote,
                                working.latest,
                            ),
                            WorkingFile { node, ..working },
                        ),
                    )
                },
            }
        },
    }
}

/// A working stream is attached to an object.
pub open spec fn attached_to(
    journal: JournalView,
    existing: Option<NamespaceObject>,
    working: WorkingFile,
) -> Result<(JournalView, WorkingFile), JournalError> {
    let ruled = with_rule(journal, working.scope@);
    match attachment(ruled, existing, working) {
        Err(error) => Err(error),
        Ok((object, stream)) => match bumped(
            NamespaceObject { node: stream.node, working_file: Some(working.id), ..object },
        ) {
            Err(error) => Err(error),
            Ok(next) => match save_step(ruled, next) {
                Err(error) => Err(error),
                Ok(state) => Ok((state, stream)),
            },
        },
    }
}

/// A working stream is attached to its object.
pub open spec fn attached(journal: JournalView, working: WorkingFile) -> Result<
    (JournalView, WorkingFile),
    JournalError,
> {
    attached_to(journal, home_of(journal, working), working)
}

/// The object that holds a working stream.
pub open spec fn stream_owner(objects: Map<Id, NamespaceObject>, working: Id) -> Option<NamespaceObject> {
    first_where(objects, |object: NamespaceObject| object.working_file == Some(working))
}

/// The object of a working stream presents what the stream now is.
pub open spec fn stream_updated(journal: JournalView, working: WorkingFile) -> Result<
    JournalView,
    JournalError,
> {
    match stream_owner(journal.objects, working.id) {
        None => Err(JournalError::Storage),
        Some(object) => if object.scope@ != working.scope@ || object.node.id@ != working.node.id@
            || object.unlinked != working.unlinked {
            Err(JournalError::Stale)
        } else {
            match bumped(
                NamespaceObject { node: working.node, latest: working.latest, ..object },
            ) {
                Err(error) => Err(error),
                Ok(next) => save_step(journal, next),
            }
        },
    }
}

/// A queued relocation moves the object's own entry.
pub open spec fn relocation_committed(
    journal: JournalView,
    object: NamespaceObject,
    mutation: MutationRecord,
) -> Result<JournalView, JournalError> {
    if !journal.objects.contains_key(object.id) {
        Err(JournalError::Missing)
    } else {
        let old = journal.objects[object.id];
        let predecessor = match mutation.base {
            Some(base) => Some(base.predecessor),
            None => None,
        };
        if old.working_file is Some || old.latest != object.latest || old.scope@ != object.scope@
            || old.node.id@ != object.node.id@ || old.revision + 1 != object.revision || predecessor
            != old.latest || mutation.request.scope@ != old.scope@ {
            Err(JournalError::Stale)
        } else {
            match mutation.request.intent {
                MutationIntent::Relocate { before, parent, name } => if node_view(old.remote)
                    != Some(before@) || optional_view(object.node.parent_id) != Some(parent@)
                    || object.node.name@ != name@ {
                    Err(JournalError::Stale)
                } else {
                    save_step(journal, NamespaceObject { latest: Some(mutation.id), ..object })
                },
                _ => Err(JournalError::Intent),
            }
        }
    }
}

impl UploadJournal {
    /// Chooses how names are told apart within a scope.
    pub fn configure_namespace(&mut self, scope: &Scope, names: NamespaceNames) -> (result: Result<
        (),
        JournalError,
    >)
        ensures
            stepped(configured(old(self)@, *scope, names), result, old(self)@, final(self)@),
    {
        if scope.account != self.account || scope.provider.as_str().is_empty()
            || scope.collection.as_str().is_empty() {
            return Err(JournalError::Account);
        }
        match self.scopes.get(scope) {
            Some(old) => {
                if old != names {
                    return Err(JournalError::Stale);
                }
            },
            None => {
                self.scopes.put(scope.clone(), names);
            },
        }
        Ok(())
    }

    /// Gives a provider's file a local identity under a given one.
    pub fn observe_file_as(&mut self, id: Id, scope: Scope, node: Node, valid: bool) -> (result: Result<
        NamespaceObject,
        JournalError,
    >)
        ensures
            answered(
                file_observed(old(self)@, id, scope, node, valid),
                result,
                old(self)@,
                final(self)@,
            ),
    {
        if scope.account != self.account {
            return Err(JournalError::Account);
        }
        if node.kind != NodeKind::File || !valid {
            return Err(JournalError::Intent);
        }
        if let Some(object) = self.namespace_by_remote(&scope, node.id.as_str()) {
            let mut object = object;
            if object.unlinked {
                return Err(JournalError::Stale);
            }
            if object.follows_remote {
                let bound = match &object.remote {
                    Some(remote) => remote.id == node.id,
                    None => false,
                };
                if object.working_file.is_some() || object.latest.is_some() || !bound {
                    return Err(JournalError::Stale);
                }
                let mut local = node.clone();
                local.id = object.node.id.clone();
                self.localize_parent(&object.scope, &mut local);
                object.node = local;
                object.remote = Some(node);
                object.follows_remote = false;
                next_revision(&mut object)?;
                self.save_object(object.clone())?;
            }
            return Ok(object);
        }
        if self.objects.len() >= OBJECT_LIMIT {
            return Err(JournalError::Quota);
        }
        let names = self.policy(&scope)?;
        let mut local = node.clone();
        self.localize_parent(&scope, &mut local);
        let object = NamespaceObject {
            id,
            scope,
            names,
            node: local,
            remote: Some(node),
            remote_owned: true,
            remote_sequence: 0,
            working_file: None,
            latest: None,
            revision: 0,
            follows_remote: false,
            unlinked: false,
        };
        let mut tx = self.copy();
        tx.ensure_policy(&object.scope);
        tx.save_object(object.clone())?;
        *self = tx;
        Ok(object)
    }

    /// Gives a provider's file a local identity without reading or reserving its
    /// bytes. `valid` is the verdict on a removal of the node.
    pub fn observe_namespace_file(&mut self, scope: Scope, node: Node, valid: bool) -> (result: Result<
        NamespaceObject,
        JournalError,
    >)
        ensures
            exists|id: Id|
                answered(
                    #[trigger] file_observed(old(self)@, id, scope, node, valid),
                    result,
                    old(self)@,
                    final(self)@,
                ),
    {
        self.observe_file_as(fresh_id(), scope, node, valid)
    }

    /// An object that follows its provider is presented again from a source.
    fn present_from(&self, object: NamespaceObject, source: &Option<Node>) -> (result: Result<
        NamespaceObject,
        JournalError,
    >)
        ensures
            result == presented(self@, object, *source),
    {
        if !object.follows_remote {
            return Ok(object);
        }
        let source = match source {
            Some(source) => source,
            None => {
                return Err(JournalError::Stale);
            },
        };
        let bound = match &object.remote {
            Some(remote) => remote.id == source.id,
            None => false,
        };
        if object.latest.is_some() || !bound || source.kind != object.node.kind
            || source.target.is_some() {
            return Err(JournalError::Stale);
        }
        let mut object = object;
        let mut node = object.node.clone();
        node.name = source.name.clone();
        node.parent_id = copy_optional(&source.parent_id);
        self.localize_parent(&object.scope, &mut node);
        object.node = node;
        object.remote = Some(source.clone());
        object.follows_remote = false;
        Ok(object)
    }

    /// The object with which a working stream is kept, and the stream as it will be
    /// known.
    fn prepare_attachment(&self, existing: Option<NamespaceObject>, working: WorkingFile) -> (result:
        Result<(NamespaceObject, WorkingFile), JournalError>)
        ensures
            result == attachment(self@, existing, working),
    {
        let mut working = working;
        match existing {
            Some(object) => {
                if object.unlinked != working.unlinked || object.working_file.is_some() {
                    return Err(JournalError::Stale);
                }
                let object = self.present_from(object, &working.initial_remote)?;
                let same = match (&object.remote, &working.initial_remote) {
                    (Some(a), Some(b)) => a.size == b.size && a.same_content_revision(b),
                    _ => false,
                };
                if object.node.kind != working.node.kind || !same {
                    return Err(JournalError::Stale);
                }
                working.node.id = object.node.id.clone();
                working.node.name = object.node.name.clone();
                working.node.parent_id = copy_optional(&object.node.parent_id);
                working.latest = object.latest;
                working.initial_remote = copy_node(&object.remote);
                Ok((object, working))
            },
            None => {
                if self.objects.len() >= OBJECT_LIMIT {
                    return Err(JournalError::Quota);
                }
                let names = self.policy(&working.scope)?;
                if working.initial_remote.is_some() {
                    let mut node = working.node.clone();
                    self.localize_parent(&working.scope, &mut node);
                    working.node = node;
                }
                let object = NamespaceObject {
                    id: working.id,
                    scope: working.scope.clone(),
                    names,
                    node: working.node.clone(),
                    remote: copy_node(&working.initial_remote),
                    remote_owned: true,
                    remote_sequence: 0,
                    working_file: None,
                    latest: working.latest,
                    revision: 0,
                    follows_remote: false,
                    unlinked: false,
                };
                Ok((object, working))
            },
        }
    }

    /// Attaches a working stream to an object.
    pub fn attach_working_to(&mut self, existing: Option<NamespaceObject>, working: WorkingFile) -> (result:
        Result<WorkingFile, JournalError>)
        ensures
            answered(attached_to(old(self)@, existing, working), result, old(self)@, final(self)@),
    {
        let id = working.id;
        let mut tx = self.copy();
        tx.ensure_policy(&working.scope);
        let (object, stream) = tx.prepare_attachment(existing, working)?;
        let mut object = object;
        object.node = stream.node.clone();
        object.working_file = Some(id);
        next_revision(&mut object)?;
        tx.save_object(object)?;
        *self = tx;
        Ok(stream)
    }

    /// Attaches a working stream to its object.
    pub fn attach_working(&mut self, working: WorkingFile) -> (result: Result<
        WorkingFile,
        JournalError,
    >)
        ensures
            answered(attached(old(self)@, working), result, old(self)@, final(self)@),
    {
        let existing = match &working.initial_remote {
            Some(remote) => self.namespace_by_remote(&working.scope, remote.id.as_str()),
            None => self.namespace_by_local(&working.scope, working.node.id.as_str()),
        };
        self.attach_working_to(existing, working)
    }

    /// The object that holds a working stream.
    pub fn namespace_by_working(&self, working: Id) -> (found: Option<NamespaceObject>)
        ensures
            found == stream_owner(self@.objects, working),
    {
        let ghost wanted = |object: NamespaceObject| object.working_file == Some(working);
        let ids = self.objects.ids();
        let mut i: usize = 0;
        while i < ids.len()
            invariant
                i <= ids@.len(),
                increasing(ids@),
                wanted == (|object: NamespaceObject| object.working_file == Some(working)),
                forall|id: Id| ids@.contains(id) <==> self@.objects.contains_key(id),
                forall|j: int| 0 <= j < ids@.len() ==> self@.objects.contains_key(#[trigger] ids@[j]),
                forall|j: int| 0 <= j < i ==> !wanted(self@.objects[#[trigger] ids@[j]]),
            decreases ids@.len() - i,
        {
            if let Some(object) = self.objects.get(ids[i]) {
                let holds = match object.working_file {
                    Some(stream) => stream == working,
                    None => false,
                };
                if holds {
                    proof {
                        let id = ids@[i as int];
                        assert forall|other: Id| #[trigger]
                            self@.objects.contains_key(other) && wanted(
                                self@.objects[other],
                            ) implies id <= other by {
                            assert(ids@.contains(other));
                            let j = choose|j: int| 0 <= j < ids@.len() && ids@[j] == other;
                            assert(ids@[j] == other);
                        }
                        lemma_first(self@.objects, wanted, id);
                    }
                    return Some(object.clone());
                }
            }
            i = i + 1;
        }
        proof {
            assert forall|id: Id| !is_first(self@.objects, wanted, id) by {
                if is_first(self@.objects, wanted, id) {
                    assert(ids@.contains(id));
                    let j = choose|j: int| 0 <= j < ids@.len() && ids@[j] == id;
                    assert(!wanted(self@.objects[ids@[j]]));
                }
            }
        }
        None
    }

    /// Lets the object of a working stream present what the stream now is.
    pub fn update_working(&mut self, working: &WorkingFile) -> (result: Result<(), JournalError>)
        ensures
            stepped(stream_updated(old(self)@, *working), result, old(self)@, final(self)@),
    {
        let mut object = match self.namespace_by_working(working.id) {
            Some(object) => object,
            None => {
                return Err(JournalError::Storage);
            },
        };
        if !object.scope.same(&working.scope) || object.node.id != working.node.id
            || object.unlinked != working.unlinked {
            return Err(JournalError::Stale);
        }
        object.node = working.node.clone();
        object.latest = working.latest;
        next_revision(&mut object)?;
        self.save_object(object)
    }

    /// Moves an object's own entry for a queued relocation.
    pub fn commit_object_relocation(&mut self, object: NamespaceObject, mutation: &MutationRecord) -> (result:
        Result<(), JournalError>)
        ensures
            stepped(
                relocation_committed(old(self)@, object, *mutation),
                result,
                old(self)@,
                final(self)@,
            ),
    {
        let old = self.namespace_object(object.id)?;
        let predecessor: Option<Id> = match mutation.base {
            Some(base) => Some(base.predecessor),
            None => None,
        };
        if old.working_file.is_some() || !same_id(old.latest, object.latest) || !old.scope.same(
            &object.scope,
        ) || old.node.id != object.node.id || old.revision == u64::MAX || old.revision + 1
            != object.revision || !same_id(predecessor, old.latest)
            || !mutation.request.scope.same(&old.scope) {
            return Err(JournalError::Stale);
        }
        match &mutation.request.intent {
            MutationIntent::Relocate { before, parent, name } => {
                let source = match &old.remote {
                    Some(remote) => remote.same(before),
                    None => false,
                };
                if !source || !optional_is(&object.node.parent_id, parent.as_str())
                    || object.node.name != *name {
                    return Err(JournalError::Stale);
                }
            },
            _ => {
                return Err(JournalError::Intent);
            },
        }
        let mut object = object;
        object.latest = Some(mutation.id);
        self.save_object(object)
    }
}

/// Two optional identities are equal.
pub fn same_id(a: Option<Id>, b: Option<Id>) -> (same: bool)
    ensures
        same == (a == b),
{
    match (a, b) {
        (None, None) => true,
        (Some(x), Some(y)) => x == y,
        _ => false,
    }
}

} // verus!
