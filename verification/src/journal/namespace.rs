//! The sparse local namespace. Objects, directory entries, remote bindings and
//! optional working bytes are separate; metadata edits never allocate bytes.
use crate::journal::ancestry::{live, routes, slot, slot_held, slot_of, RetainedAncestors};
use crate::journal::queue::stepped;
use crate::journal::records::{
    JournalError, JournalView, NamespaceNames, NamespaceObject, UploadJournal,
};
use crate::journal::tables::increasing;
use crate::model::{Id, Scope, ScopeView};
use crate::text::{optional_view, same_optional, same_text};
use vstd::prelude::*;

verus! {

/// The largest value that storage keeps for a counter.
pub const COUNTER_LIMIT: u64 = 0x7fff_ffff_ffff_ffff;

/// How many local objects a journal may hold.
pub const OBJECT_LIMIT: usize = 10_000;

/// The object is the first, by identity, that satisfies a condition.
pub open spec fn is_first(
    objects: Map<Id, NamespaceObject>,
    wanted: spec_fn(NamespaceObject) -> bool,
    id: Id,
) -> bool {
    &&& objects.contains_key(id)
    &&& wanted(objects[id])
    &&& forall|other: Id| #[trigger]
        objects.contains_key(other) && wanted(objects[other]) ==> id <= other
}

/// The first object, by identity, that satisfies a condition.
pub open spec fn first_where(
    objects: Map<Id, NamespaceObject>,
    wanted: spec_fn(NamespaceObject) -> bool,
) -> Option<NamespaceObject> {
    if exists|id: Id| is_first(objects, wanted, id) {
        Some(objects[choose|id: Id| is_first(objects, wanted, id)])
    } else {
        None
    }
}

/// There is only one first object.
pub proof fn lemma_first(
    objects: Map<Id, NamespaceObject>,
    wanted: spec_fn(NamespaceObject) -> bool,
    id: Id,
)
    requires
        is_first(objects, wanted, id),
    ensures
        first_where(objects, wanted) == Some(objects[id]),
{
    let other = choose|other: Id| is_first(objects, wanted, other);
    assert(is_first(objects, wanted, other));
}

/// The object presents this local identity.
pub open spec fn presents(object: NamespaceObject, scope: ScopeView, item: Seq<char>) -> bool {
    object.scope@ == scope && object.node.id@ == item
}

/// The object is the active owner of this provider identity.
pub open spec fn owns(object: NamespaceObject, scope: ScopeView, item: Seq<char>) -> bool {
    object.remote_owned && object.remote is Some && object.scope@ == scope && object.remote->0.id@
        == item
}

/// The object with a local identity. Provider aliases are never followed here.
pub open spec fn local_object(
    objects: Map<Id, NamespaceObject>,
    scope: ScopeView,
    item: Seq<char>,
) -> Option<NamespaceObject> {
    first_where(objects, |object: NamespaceObject| presents(object, scope, item))
}

/// The object that owns a provider identity.
pub open spec fn remote_object(
    objects: Map<Id, NamespaceObject>,
    scope: ScopeView,
    item: Seq<char>,
) -> Option<NamespaceObject> {
    first_where(objects, |object: NamespaceObject| owns(object, scope, item))
}

/// The name rules of a scope. A scope that holds objects must have stated them.
pub open spec fn rule(journal: JournalView, scope: ScopeView) -> Result<
    NamespaceNames,
    JournalError,
> {
    if journal.scopes.contains_key(scope) {
        Ok(journal.scopes[scope])
    } else if exists|id: Id| #[trigger]
        journal.objects.contains_key(id) && journal.objects[id].scope@ == scope {
        Err(JournalError::Corrupt)
    } else {
        Ok(NamespaceNames::Insensitive)
    }
}

/// The journal after the default rules were stated where none were.
pub open spec fn with_rule(journal: JournalView, scope: ScopeView) -> JournalView {
    if journal.scopes.contains_key(scope) {
        journal
    } else {
        JournalView {
            scopes: journal.scopes.insert(scope, NamespaceNames::Insensitive),
            ..journal
        }
    }
}

/// The object keeps the entry that it already has.
pub open spec fn keeps_entry(journal: JournalView, object: NamespaceObject) -> bool {
    journal.objects.contains_key(object.id) && live(journal.objects[object.id])
        && optional_view(journal.objects[object.id].node.parent_id) == optional_view(
        object.node.parent_id,
    ) && journal.objects[object.id].node.name@ == object.node.name@
}

/// A new entry would take a slot on a retained route.
pub open spec fn blocks_route(journal: JournalView, object: NamespaceObject) -> bool {
    live(object) && !keeps_entry(journal, object) && slot_held(routes(journal.objects), object)
}

/// Another object has an entry in the slot.
pub open spec fn occupied(journal: JournalView, object: NamespaceObject) -> bool {
    exists|other: Id| #[trigger]
        journal.objects.contains_key(other) && other != object.id && live(journal.objects[other])
            && slot_of(journal.objects[other]) == slot_of(object)
}

/// Another object presents the local identity.
pub open spec fn identity_taken(journal: JournalView, object: NamespaceObject) -> bool {
    exists|other: Id| #[trigger]
        journal.objects.contains_key(other) && other != object.id && presents(
            journal.objects[other],
            object.scope@,
            object.node.id@,
        )
}

/// Another object holds the working stream.
pub open spec fn stream_taken(journal: JournalView, object: NamespaceObject) -> bool {
    object.working_file is Some && exists|other: Id| #[trigger]
        journal.objects.contains_key(other) && other != object.id
            && journal.objects[other].working_file == object.working_file
}

/// Another object owns the provider identity.
pub open spec fn remote_taken(journal: JournalView, object: NamespaceObject) -> bool {
    object.remote_owned && object.remote is Some && exists|other: Id| #[trigger]
        journal.objects.contains_key(other) && other != object.id && owns(
            journal.objects[other],
            object.scope@,
            object.remote->0.id@,
        )
}

/// The latest operation is bound to another object.
pub open spec fn operation_taken(journal: JournalView, object: NamespaceObject) -> bool {
    match object.latest {
        Some(latest) => journal.operations.contains_key(latest) && journal.operations[latest]
            != object.id,
        None => false,
    }
}

/// Why an object cannot be saved.
pub open spec fn save_refusal(journal: JournalView, object: NamespaceObject) -> Option<
    JournalError,
> {
    if blocks_route(journal, object) {
        Some(JournalError::Stale)
    } else if !object.remote_owned && !object.unlinked {
        Some(JournalError::Corrupt)
    } else if object.follows_remote && (object.unlinked || object.working_file is Some
        || object.latest is Some || object.remote is None) {
        Some(JournalError::Corrupt)
    } else if rule(journal, object.scope@) != Ok::<NamespaceNames, JournalError>(object.names) {
        Some(JournalError::Corrupt)
    } else if object.node.parent_id is None {
        Some(JournalError::Intent)
    } else if live(object) && occupied(journal, object) {
        Some(JournalError::Stale)
    } else if identity_taken(journal, object) || stream_taken(journal, object) || journal.clock
        >= COUNTER_LIMIT {
        Some(JournalError::Storage)
    } else if remote_taken(journal, object) || operation_taken(journal, object) {
        Some(JournalError::Stale)
    } else {
        None
    }
}

/// The journal after an object was saved.
pub open spec fn saved(journal: JournalView, object: NamespaceObject) -> JournalView {
    JournalView {
        objects: journal.objects.insert(object.id, object),
        clock: (journal.clock + 1) as u64,
        changes: journal.changes.insert(object.id, (journal.clock + 1) as u64),
        operations: match object.latest {
            Some(latest) => journal.operations.insert(latest, object.id),
            None => journal.operations,
        },
        ..journal
    }
}

/// Saving an object, or the reason why not.
pub open spec fn save_step(journal: JournalView, object: NamespaceObject) -> Result<
    JournalView,
    JournalError,
> {
    match save_refusal(journal, object) {
        Some(error) => Err(error),
        None => Ok(saved(journal, object)),
    }
}

/// The object at its next revision.
pub open spec fn bumped(object: NamespaceObject) -> Result<NamespaceObject, JournalError> {
    if object.revision == u64::MAX {
        Err(JournalError::Quota)
    } else {
        Ok(NamespaceObject { revision: (object.revision + 1) as u64, ..object })
    }
}

/// Advances the revision of an object.
pub fn next_revision(object: &mut NamespaceObject) -> (result: Result<(), JournalError>)
    ensures
        match result {
            Ok(()) => bumped(*old(object)) == Ok::<NamespaceObject, JournalError>(*final(object)),
            Err(error) => bumped(*old(object)) == Err::<NamespaceObject, JournalError>(error)
                && *final(object) == *old(object),
        },
{
    if object.revision == u64::MAX {
        return Err(JournalError::Quota);
    }
    object.revision = object.revision + 1;
    Ok(())
}

/// What stands in the way of an object, apart from the routes.
pub struct Collisions {
    pub occupied: bool,
    pub identity: bool,
    pub stream: bool,
    pub remote: bool,
    pub scope: bool,
}

impl UploadJournal {
    /// The object with this identity.
    pub fn namespace_object(&self, id: Id) -> (result: Result<NamespaceObject, JournalError>)
        ensures
            match result {
                Ok(object) => self@.objects.contains_key(id) && object == self@.objects[id],
                Err(error) => error == JournalError::Missing && !self@.objects.contains_key(id),
            },
    {
        match self.objects.get(id) {
            Some(object) => Ok(object.clone()),
            None => Err(JournalError::Missing),
        }
    }

    /// Resolves a stable local identity. Provider aliases are never followed here:
    /// existing views and streams keep their own local object.
    pub fn namespace_by_local(&self, scope: &Scope, item: &str) -> (found: Option<NamespaceObject>)
        ensures
            found == local_object(self@.objects, scope@, item@),
    {
        let ghost wanted = |object: NamespaceObject| presents(object, scope@, item@);
        let ids = self.objects.ids();
        let mut i: usize = 0;
        while i < ids.len()
            invariant
                i <= ids@.len(),
                increasing(ids@),
                wanted == (|object: NamespaceObject| presents(object, scope@, item@)),
                forall|id: Id| ids@.contains(id) <==> self@.objects.contains_key(id),
                forall|j: int| 0 <= j < ids@.len() ==> self@.objects.contains_key(#[trigger] ids@[j]),
                forall|j: int| 0 <= j < i ==> !wanted(self@.objects[#[trigger] ids@[j]]),
            decreases ids@.len() - i,
        {
            if let Some(object) = self.objects.get(ids[i]) {
                if object.scope.same(scope) && same_text(object.node.id.as_str(), item) {
                    proof {
                        let id = ids@[i as int];
                        assert forall|other: Id| #[trigger]
                            self@.objects.contains_key(other) && wanted(
                                self@.objects[other],
                            ) implies id <= other by {
                            let j = choose|j: int| 0 <= j < ids@.len() && ids@[j] == other;
                            assert(ids@.contains(other));
                            assert(ids@[j] == other);
                        }
                        lemma_first(self@.objects, wanted, id);
                    }
                    return Some(object.clone());
                }
            }
            i = i + 1;
        }
        proof {
            assert forall|id: Id| !is_first(self@.objects, wanted, id) by {
                if is_first(self@.objects, wanted, id) {
                    assert(ids@.contains(id));
                    let j = choose|j: int| 0 <= j < ids@.len() && ids@[j] == id;
                    assert(!wanted(self@.objects[ids@[j]]));
                }
            }
        }
        None
    }

    /// Resolves the current owner of a provider identity, for incoming metadata and
    /// hydration. Callers with a local view use `namespace_by_local`.
    pub fn namespace_by_remote(&self, scope: &Scope, item: &str) -> (found: Option<NamespaceObject>)
        ensures
            found == remote_object(self@.objects, scope@, item@),
    {
        let ghost wanted = |object: NamespaceObject| owns(object, scope@, item@);
        let ids = self.objects.ids();
        let mut i: usize = 0;
        while i < ids.len()
            invariant
                i <= ids@.len(),
                increasing(ids@),
                wanted == (|object: NamespaceObject| owns(object, scope@, item@)),
                forall|id: Id| ids@.contains(id) <==> self@.objects.contains_key(id),
                forall|j: int| 0 <= j < ids@.len() ==> self@.objects.contains_key(#[trigger] ids@[j]),
                forall|j: int| 0 <= j < i ==> !wanted(self@.objects[#[trigger] ids@[j]]),
            decreases ids@.len() - i,
        {
            if let Some(object) = self.objects.get(ids[i]) {
                let owner = match &object.remote {
                    Some(remote) => object.remote_owned && object.scope.same(scope) && same_text(
                        remote.id.as_str(),
                        item,
                    ),
                    None => false,
                };
                if owner {
                    proof {
                        let id = ids@[i as int];
                        assert forall|other: Id| #[trigger]
                            self@.objects.contains_key(other) && wanted(
                                self@.objects[other],
                            ) implies id <= other by {
                            let j = choose|j: int| 0 <= j < ids@.len() && ids@[j] == other;
                            assert(ids@.contains(other));
                            assert(ids@[j] == other);
                        }
                        lemma_first(self@.objects, wanted, id);
                    }
                    return Some(object.clone());
                }
            }
            i = i + 1;
        }
        proof {
            assert forall|id: Id| !is_first(self@.objects, wanted, id) by {
                if is_first(self@.objects, wanted, id) {
                    assert(ids@.contains(id));
                    let j = choose|j: int| 0 <= j < ids@.len() && ids@[j] == id;
                    assert(!wanted(self@.objects[ids@[j]]));
                }
            }
        }
        None
    }

    /// What stands in the way of saving an object.
    fn collisions(&self, object: &NamespaceObject) -> (result: Collisions)
        ensures
            result.occupied == occupied(self@, *object),
            result.identity == identity_taken(self@, *object),
            result.stream == stream_taken(self@, *object),
            result.remote == remote_taken(self@, *object),
            result.scope == exists|id: Id| #[trigger]
                self@.objects.contains_key(id) && self@.objects[id].scope@ == object.scope@,
    {
        let ids = self.objects.ids();
        let wanted = slot(object);
        let mut result = Collisions {
            occupied: false,
            identity: false,
            stream: false,
            remote: false,
            scope: false,
        };
        let mut i: usize = 0;
        let ghost m = self@.objects;
        while i < ids.len()
            invariant
                i <= ids@.len(),
                m == self@.objects,
                forall|id: Id| ids@.contains(id) <==> m.contains_key(id),
                forall|j: int| 0 <= j < ids@.len() ==> m.contains_key(#[trigger] ids@[j]),
                match wanted {
                    Some(value) => slot_of(*object) == Some(value@),
                    None => slot_of(*object) is None,
                },
                result.occupied ==> occupied(self@, *object),
                result.identity ==> identity_taken(self@, *object),
                result.stream ==> stream_taken(self@, *object),
                result.remote ==> remote_taken(self@, *object),
                result.scope ==> exists|id: Id| #[trigger]
                    m.contains_key(id) && m[id].scope@ == object.scope@,
                forall|j: int|
                    #![trigger ids@[j]]
                    0 <= j < i ==> {
                        let other = ids@[j];
                        &&& other != object.id && live(m[other]) && slot_of(m[other]) == slot_of(
                            *object,
                        ) ==> result.occupied
                        &&& other != object.id && presents(m[other], object.scope@, object.node.id@)
                            ==> result.identity
                        &&& other != object.id && object.working_file is Some
                            && m[other].working_file == object.working_file ==> result.stream
                        &&& other != object.id && object.remote_owned && object.remote is Some
                            && owns(m[other], object.scope@, object.remote->0.id@) ==> result.remote
                        &&& m[other].scope@ == object.scope@ ==> result.scope
                    },
            decreases ids@.len() - i,
        {
            let id = ids[i];
            assert(m.contains_key(ids@[i as int]));
            if let Some(other) = self.objects.get(id) {
                if other.scope.same(&object.scope) {
                    result.scope = true;
                }
                if id != object.id {
                    if !other.follows_remote && !other.unlinked {
                        let same_slot = match (slot(other), &wanted) {
                            (Some(a), Some(b)) => a.same(b),
                            (None, None) => true,
                            _ => false,
                        };
                        if same_slot {
                            result.occupied = true;
                        }
                    }
                    if other.scope.same(&object.scope) && other.node.id == object.node.id {
                        result.identity = true;
                    }
                    if let (Some(a), Some(b)) = (other.working_file, object.working_file) {
                        if a == b {
                            result.stream = true;
                        }
                    }
                    if let (Some(a), Some(b)) = (&other.remote, &object.remote) {
                        if object.remote_owned && other.remote_owned && other.scope.same(
                            &object.scope,
                        ) && a.id == b.id {
                            result.remote = true;
                        }
                    }
                }
            }
            i = i + 1;
        }
        proof {
            assert forall|other: Id| #[trigger] m.contains_key(other) implies exists|j: int|
                0 <= j < i && ids@[j] == other by {
                assert(ids@.contains(other));
            }
        }
        result
    }

    /// The name rules of a scope.
    pub fn policy(&self, scope: &Scope) -> (result: Result<NamespaceNames, JournalError>)
        ensures
            result == rule(self@, scope@),
    {
        if let Some(names) = self.scopes.get(scope) {
            return Ok(names);
        }
        let ids = self.objects.ids();
        let mut i: usize = 0;
        while i < ids.len()
            invariant
                i <= ids@.len(),
                forall|id: Id| ids@.contains(id) <==> self@.objects.contains_key(id),
                forall|j: int| 0 <= j < ids@.len() ==> self@.objects.contains_key(#[trigger] ids@[j]),
                forall|j: int| 0 <= j < i ==> self@.objects[#[trigger] ids@[j]].scope@ != scope@,
                !self@.scopes.contains_key(scope@),
            decreases ids@.len() - i,
        {
            if let Some(object) = self.objects.get(ids[i]) {
                if object.scope.same(scope) {
                    return Err(JournalError::Corrupt);
                }
            }
            i = i + 1;
        }
        proof {
            assert forall|id: Id| #[trigger] self@.objects.contains_key(id) implies self@.objects[id].scope@
                != scope@ by {
                assert(ids@.contains(id));
                let j = choose|j: int| 0 <= j < ids@.len() && ids@[j] == id;
                assert(self@.objects[ids@[j]].scope@ != scope@);
            }
        }
        Ok(NamespaceNames::Insensitive)
    }

    /// States the default name rules of a scope that has none.
    pub fn ensure_policy(&mut self, scope: &Scope)
        ensures
            final(self)@ == with_rule(old(self)@, scope@),
    {
        if self.scopes.get(scope).is_none() {
            self.scopes.put(scope.clone(), NamespaceNames::Insensitive);
        }
    }

    /// Whether a new entry would take a slot on a retained route.
    fn check_new_slot(&self, object: &NamespaceObject) -> (blocked: bool)
        ensures
            blocked == blocks_route(self@, *object),
    {
        if object.unlinked || object.follows_remote {
            return false;
        }
        if let Some(old) = self.objects.get(object.id) {
            if !old.follows_remote && !old.unlinked && same_optional(
                &old.node.parent_id,
                &object.node.parent_id,
            ) && old.node.name == object.node.name {
                return false;
            }
        }
        RetainedAncestors::new(&self.objects).check_slot(object).is_err()
    }

    /// Saves an object with its entry, its remote binding and its latest operation.
    pub fn save_object(&mut self, object: NamespaceObject) -> (result: Result<(), JournalError>)
        ensures
            stepped(save_step(old(self)@, object), result, old(self)@, final(self)@),
    {
        if self.check_new_slot(&object) {
            return Err(JournalError::Stale);
        }
        if !object.remote_owned && !object.unlinked {
            return Err(JournalError::Corrupt);
        }
        if object.follows_remote && (object.unlinked || object.working_file.is_some()
            || object.latest.is_some() || object.remote.is_none()) {
            return Err(JournalError::Corrupt);
        }
        match self.policy(&object.scope) {
            Ok(names) => {
                if names != object.names {
                    return Err(JournalError::Corrupt);
                }
            },
            Err(_) => {
                return Err(JournalError::Corrupt);
            },
        }
        if object.node.parent_id.is_none() {
            return Err(JournalError::Intent);
        }
        let found = self.collisions(&object);
        if found.occupied && !object.follows_remote && !object.unlinked {
            return Err(JournalError::Stale);
        }
        if found.identity || found.stream || self.clock >= COUNTER_LIMIT {
            return Err(JournalError::Storage);
        }
        if found.remote {
            return Err(JournalError::Stale);
        }
        if let Some(latest) = object.latest {
            if let Some(other) = self.operations.get(latest) {
                if *other != object.id {
                    return Err(JournalError::Stale);
                }
            }
            self.operations.put(latest, object.id);
        }
        let id = object.id;
        self.clock = self.clock + 1;
        self.changes.put(id, self.clock);
        self.objects.put(id, object);
        Ok(())
    }
}

/// Every object is kept under its own identity.
pub open spec fn keyed(journal: JournalView) -> bool {
    forall|id: Id| #[trigger]
        journal.objects.contains_key(id) ==> journal.objects[id].id == id
}

/// What the local namespace never breaks: no two objects share a directory entry,
/// a provider identity, a local identity or a working stream.
pub open spec fn consistent(journal: JournalView) -> bool {
    &&& keyed(journal)
    &&& forall|a: Id, b: Id|
        #![trigger journal.objects.contains_key(a), journal.objects.contains_key(b)]
        journal.objects.contains_key(a) && journal.objects.contains_key(b) && a != b ==> apart(
            journal.objects[a],
            journal.objects[b],
        )
}

/// Two objects that can stand side by side.
pub open spec fn apart(a: NamespaceObject, b: NamespaceObject) -> bool {
    &&& live(a) && live(b) ==> slot_of(a) != slot_of(b)
    &&& !presents(a, b.scope@, b.node.id@)
    &&& a.working_file is Some ==> a.working_file != b.working_file
    &&& b.remote_owned && b.remote is Some ==> !owns(a, b.scope@, b.remote->0.id@)
}

/// Saving an object keeps the namespace consistent, whatever the object.
pub proof fn saving_keeps_consistency(journal: JournalView, object: NamespaceObject)
    requires
        consistent(journal),
        save_refusal(journal, object) is None,
    ensures
        consistent(saved(journal, object)),
{
    let after = saved(journal, object);
    assert forall|a: Id, b: Id|
        #![trigger after.objects.contains_key(a), after.objects.contains_key(b)]
        after.objects.contains_key(a) && after.objects.contains_key(b) && a != b implies apart(
        after.objects[a],
        after.objects[b],
    ) by {
        if a != object.id && b != object.id {
            assert(journal.objects.contains_key(a) && journal.objects.contains_key(b));
        } else if a == object.id {
            assert(journal.objects.contains_key(b));
            assert(journal.objects[b].id == b);
        } else {
            assert(journal.objects.contains_key(a));
            assert(journal.objects[a].id == a);
        }
    }
    assert forall|id: Id| #[trigger] after.objects.contains_key(id) implies after.objects[id].id
        == id by {
        if id != object.id {
            assert(journal.objects.contains_key(id));
        }
    }
}

} // verus!
