//! Observed routes are kept before a local change below them is accepted. A captured
//! folder or link queues no provider operation.
use crate::journal::ancestry::{
    names_something, route_node, routes, slot_held, valid_node, valid_text, RetainedAncestors,
    RoutesView,
};
use crate::journal::directories::localized;
use crate::journal::namespace::{
    bumped, local_object, next_revision, rule, save_step, with_rule, OBJECT_LIMIT,
};
use crate::journal::queue::stepped;
use crate::journal::records::{
    JournalError, JournalView, NamespaceNames, NamespaceObject, UploadJournal,
};
use crate::model::{node_view, Id, Node, Scope, ScopeView};
use crate::outside::fresh_id;
use vstd::prelude::*;

verus! {

/// How many entries a captured path may have.
pub const ROUTE_LIMIT: usize = 128;

/// The provider's form of a traversed entry: its provider identity, below the
/// provider identity of its parent.
pub open spec fn provider_form(
    journal: JournalView,
    old: Option<NamespaceObject>,
    scope: ScopeView,
    node: Node,
) -> Result<Node, JournalError> {
    if old is Some && old->0.remote is None {
        Err(JournalError::Corrupt)
    } else {
        let named = match old {
            Some(object) => Node { id: object.remote->0.id, ..node },
            None => node,
        };
        match named.parent_id {
            None => Ok(named),
            Some(parent) => match local_object(journal.objects, scope, parent@) {
                None => Ok(named),
                Some(folder) => match folder.remote {
                    Some(remote) => Ok(Node { parent_id: Some(remote.id), ..named }),
                    None => Err(JournalError::Stale),
                },
            },
        }
    }
}

/// An entry of a traversed path that nobody has changed locally.
pub open spec fn route_object(
    id: Id,
    scope: Scope,
    names: NamespaceNames,
    node: Node,
    remote: Node,
) -> NamespaceObject {
    NamespaceObject {
        id,
        scope,
        names,
        node,
        remote: Some(remote),
        remote_owned: true,
        remote_sequence: 0,
        working_file: None,
        latest: None,
        revision: 0,
        follows_remote: true,
        unlinked: false,
    }
}

/// The object that an entry becomes; `None` says that nothing is to be saved.
pub open spec fn route_update(
    journal: JournalView,
    count: int,
    id: Id,
    scope: Scope,
    node: Node,
    old: Option<NamespaceObject>,
) -> Result<(NamespaceObject, bool, int), JournalError> {
    match provider_form(journal, old, scope@, node) {
        Err(error) => Err(error),
        Ok(remote) => {
            let local = localized(journal, scope@, node);
            match old {
                Some(object) => if object.node@ == local@ && node_view(object.remote) == Some(
                    remote@,
                ) {
                    Ok((object, false, count))
                } else {
                    match bumped(
                        NamespaceObject { node: local, remote: Some(remote), ..object },
                    ) {
                        Err(error) => Err(error),
                        Ok(next) => Ok((next, true, count)),
                    }
                },
                None => if count >= OBJECT_LIMIT {
                    Err(JournalError::Quota)
                } else {
                    match rule(journal, scope@) {
                        Err(error) => Err(error),
                        Ok(names) => Ok(
                            (route_object(id, scope, names, local, remote), true, count + 1),
                        ),
                    }
                },
            }
        },
    }
}

/// One entry of a traversed path is captured.
pub open spec fn entry_captured(
    journal: JournalView,
    kept: RoutesView,
    count: int,
    id: Id,
    scope: Scope,
    node: Node,
) -> Result<(JournalView, int), JournalError> {
    if scope.account@ != journal.account {
        Err(JournalError::Account)
    } else if !names_something(scope.provider@) || !names_something(scope.collection@)
        || !route_node(node@) {
        Err(JournalError::Intent)
    } else {
        let ruled = with_rule(journal, scope@);
        let old = local_object(ruled.objects, scope@, node.id@);
        if old is Some && (old->0.unlinked || old->0.node.kind != node.kind) {
            Err(JournalError::Stale)
        } else if old is Some && (!old->0.follows_remote || kept.objects.contains(old->0.id)) {
            Ok((ruled, count))
        } else {
            match route_update(ruled, count, id, scope, node, old) {
                Err(error) => Err(error),
                Ok((object, changed, more)) => if slot_held(kept, object) {
                    Err(JournalError::Stale)
                } else if !changed {
                    Ok((ruled, more))
                } else {
                    match save_step(ruled, object) {
                        Err(error) => Err(error),
                        Ok(state) => Ok((state, more)),
                    }
                },
            }
        }
    }
}

/// Entries of a traversed path are captured, from one on.
pub open spec fn entries_captured(
    journal: JournalView,
    kept: RoutesView,
    count: int,
    ids: Seq<Id>,
    entries: Seq<(Scope, Node)>,
    from: int,
) -> Result<JournalView, JournalError>
    decreases entries.len() - from,
{
    if from < 0 || from >= entries.len() {
        Ok(journal)
    } else {
        match entry_captured(
            journal,
            kept,
            count,
            ids[from],
            entries[from].0,
            entries[from].1,
        ) {
            Err(error) => Err(error),
            Ok((state, more)) => entries_captured(state, kept, more, ids, entries, from + 1),
        }
    }
}

/// A traversed path is captured as a whole, or not at all.
pub open spec fn path_captured(journal: JournalView, ids: Seq<Id>, entries: Seq<(Scope, Node)>) -> Result<
    JournalView,
    JournalError,
> {
    if entries.len() > ROUTE_LIMIT {
        Err(JournalError::Quota)
    } else {
        entries_captured(
            journal,
            routes(journal.objects),
            journal.objects.len() as int,
            ids,
            entries,
            0,
        )
    }
}

impl UploadJournal {
    /// The provider's form of a traversed entry.
    fn to_provider_form(&self, old: &Option<NamespaceObject>, scope: &Scope, node: &Node) -> (result:
        Result<Node, JournalError>)
        ensures
            result == provider_form(self@, *old, scope@, *node),
    {
        let mut remote = node.clone();
        if let Some(object) = old {
            match &object.remote {
                Some(known) => {
                    remote.id = known.id.clone();
                },
                None => {
                    return Err(JournalError::Corrupt);
                },
            }
        }
        let parent = match &remote.parent_id {
            Some(parent) => self.namespace_by_local(scope, parent.as_str()),
            None => None,
        };
        if let Some(folder) = parent {
            match folder.remote {
                Some(known) => {
                    remote.parent_id = Some(known.id);
                },
                None => {
                    return Err(JournalError::Stale);
                },
            }
        }
        Ok(remote)
    }

    /// The object that an entry becomes, and whether it is to be saved.
    fn update_route(
        &self,
        count: usize,
        id: Id,
        scope: &Scope,
        node: Node,
        old: Option<NamespaceObject>,
    ) -> (result: Result<(NamespaceObject, bool, usize), JournalError>)
        ensures
            match (route_update(self@, count as int, id, *scope, node, old), result) {
                (Ok((object, changed, more)), Ok(found)) => found.0 == object && found.1 == changed
                    && found.2 == more,
                (Err(wanted), Err(error)) => wanted == error,
                _ => false,
            },
    {
        let remote = self.to_provider_form(&old, scope, &node)?;
        let mut local = node;
        self.localize_parent(scope, &mut local);
        match old {
            Some(object) => {
                let mut object = object;
                let same = match &object.remote {
                    Some(known) => known.same(&remote),
                    None => false,
                };
                if same && object.node.same(&local) {
                    return Ok((object, false, count));
                }
                object.node = local;
                object.remote = Some(remote);
                next_revision(&mut object)?;
                Ok((object, true, count))
            },
            None => {
                if count >= OBJECT_LIMIT {
                    return Err(JournalError::Quota);
                }
                let names = self.policy(scope)?;
                let object = NamespaceObject {
                    id,
                    scope: scope.clone(),
                    names,
                    node: local,
                    remote: Some(remote),
                    remote_owned: true,
                    remote_sequence: 0,
                    working_file: None,
                    latest: None,
                    revision: 0,
                    follows_remote: true,
                    unlinked: false,
                };
                Ok((object, true, count + 1))
            },
        }
    }

    /// Captures one entry of a traversed path.
    fn capture_entry(
        &mut self,
        kept: &RetainedAncestors,
        count: usize,
        id: Id,
        scope: &Scope,
        node: Node,
    ) -> (result: Result<usize, JournalError>)
        ensures
            match (entry_captured(old(self)@, kept@, count as int, id, *scope, node), result) {
                (Ok((state, more)), Ok(found)) => final(self)@ == state && found == more,
                (Err(wanted), Err(error)) => wanted == error,
                _ => false,
            },
    {
        if scope.account != self.account {
            return Err(JournalError::Account);
        }
        if !valid_text(scope.provider.as_str()) || !valid_text(scope.collection.as_str())
            || !valid_node(&node) {
            return Err(JournalError::Intent);
        }
        self.ensure_policy(scope);
        let old = self.namespace_by_local(scope, node.id.as_str());
        if let Some(object) = &old {
            if object.unlinked || object.node.kind != node.kind {
                return Err(JournalError::Stale);
            }
            if !object.follows_remote || kept.contains(object.id) {
                return Ok(count);
            }
        }
        let (object, changed, more) = self.update_route(count, id, scope, node, old)?;
        kept.check_slot(&object)?;
        if changed {
            self.save_object(object)?;
        }
        Ok(more)
    }

    /// Captures a traversed path with given identities for new entries.
    pub fn capture_path(&mut self, ids: &Vec<Id>, entries: Vec<(Scope, Node)>) -> (result: Result<
        (),
        JournalError,
    >)
        requires
            ids@.len() >= entries@.len(),
        ensures
            stepped(path_captured(old(self)@, ids@, entries@), result, old(self)@, final(self)@),
    {
        if entries.len() > ROUTE_LIMIT {
            return Err(JournalError::Quota);
        }
        let kept = RetainedAncestors::new(&self.objects);
        let mut count: usize = self.objects.len();
        let mut tx = self.copy();
        let mut i: usize = 0;
        while i < entries.len()
            invariant
                i <= entries@.len(),
                entries@.len() <= ROUTE_LIMIT,
                ids@.len() >= entries@.len(),
                self@ == old(self)@,
                kept@ == routes(self@.objects),
                path_captured(self@, ids@, entries@) == entries_captured(
                    tx@,
                    kept@,
                    count as int,
                    ids@,
                    entries@,
                    i as int,
                ),
            decreases entries@.len() - i,
        {
            count = tx.capture_entry(&kept, count, ids[i], &entries[i].0, entries[i].1.clone())?;
            i = i + 1;
        }
        *self = tx;
        Ok(())
    }

    /// Captures an already traversed path before a local change is accepted. Entries go
    /// from the root to the leaf, with source-side entries for links; the root itself
    /// is implicit.
    pub fn capture_namespace_ancestors(&mut self, entries: Vec<(Scope, Node)>) -> (result: Result<
        (),
        JournalError,
    >)
        ensures
            exists|ids: Seq<Id>|
                stepped(
                    #[trigger] path_captured(old(self)@, ids, entries@),
                    result,
                    old(self)@,
                    final(self)@,
                ),
    {
        let mut ids: Vec<Id> = Vec::new();
        let mut i: usize = 0;
        while i < entries.len()
            invariant
                i <= entries@.len(),
                ids@.len() == i,
            decreases entries@.len() - i,
        {
            ids.push(fresh_id());
            i = i + 1;
        }
        self.capture_path(&ids, entries)
    }
}

} // verus!
