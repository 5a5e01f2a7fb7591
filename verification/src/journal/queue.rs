//! One queue orders uploads and namespace changes. Each operation claims the
//! resources it touches, may follow one predecessor's receipt, may wait for
//! others to complete, and may lead into a folder that is itself still queued.
use crate::journal::namespace::{local_object, COUNTER_LIMIT};
use crate::journal::records::{
    Destination, JournalError, JournalView, QueueRow, UploadJournal, WriteBase,
};
use crate::journal::tables::{
    lemma_resource_order, lemma_resource_transitive, resource_less, Resource, ResourceTable,
    ResourceView,
};
use crate::model::{
    intent_before, intent_destination, Id, MutationRequest, NodeKind, Scope, ScopeView,
    UploadIntent,
};
#[allow(unused_imports)]
use crate::seqs::lemma_push_contains;
use crate::text::{lowercase, to_lowercase};
use vstd::prelude::*;

verus! {

/// How many operations one operation may wait for.
pub const PREREQUISITE_LIMIT: usize = 16;

/// A step succeeded with the expected state, or refused with the expected error
/// and changed nothing.
pub open spec fn stepped(
    expected: Result<JournalView, JournalError>,
    result: Result<(), JournalError>,
    before: JournalView,
    after: JournalView,
) -> bool {
    match (expected, result) {
        (Ok(state), Ok(())) => after == state,
        (Err(wanted), Err(error)) => wanted == error && after == before,
        _ => false,
    }
}

/// The resource that a provider item is.
pub open spec fn item_key(scope: ScopeView, item: Seq<char>) -> ResourceView {
    ResourceView::Item { scope, item }
}

/// The resource that a name below a parent is.
pub open spec fn slot_key(scope: ScopeView, parent: Seq<char>, name: Seq<char>) -> ResourceView {
    ResourceView::Name { scope, parent, name: lowercase(name) }
}

/// What an upload claims.
pub open spec fn upload_keys(scope: ScopeView, intent: UploadIntent) -> Set<ResourceView> {
    match intent {
        UploadIntent::Create { parent, name } => set![slot_key(scope, parent@, name@)],
        UploadIntent::Replace { item, .. } => set![item_key(scope, item@)],
    }
}

/// What a namespace change claims: the item and name it starts from, and the name
/// it leads to.
pub open spec fn mutation_keys(request: MutationRequest) -> Result<
    Set<ResourceView>,
    JournalError,
> {
    let scope = request.scope@;
    let source = match intent_before(request.intent) {
        Some(before) => match before.parent_id {
            Some(parent) => Ok::<Set<ResourceView>, JournalError>(
                set![item_key(scope, before.id@), slot_key(scope, parent@, before.name@)],
            ),
            None => Err(JournalError::Intent),
        },
        None => Ok(Set::empty()),
    };
    match source {
        Ok(keys) => match intent_destination(request.intent) {
            Some(pair) => Ok(keys.insert(slot_key(scope, pair.0@, pair.1@))),
            None => Ok(keys),
        },
        Err(error) => Err(error),
    }
}

/// The keys that a sequence of resources holds.
pub open spec fn key_set(keys: Seq<Resource>) -> Set<ResourceView> {
    Set::new(|key: ResourceView| exists|i: int| 0 <= i < keys.len() && #[trigger] keys[i]@ == key)
}

proof fn lemma_key_push(keys: Seq<Resource>, key: Resource)
    ensures
        key_set(keys.push(key)) == key_set(keys).insert(key@),
{
    let more = keys.push(key);
    assert forall|k: ResourceView|
        key_set(more).contains(k) <==> key_set(keys).insert(key@).contains(k) by {
        if key_set(keys).contains(k) {
            let i = choose|i: int| 0 <= i < keys.len() && #[trigger] keys[i]@ == k;
            assert(more[i]@ == k);
        }
        assert(more[keys.len() as int]@ == key@);
        if key_set(more).contains(k) {
            let i = choose|i: int| 0 <= i < more.len() && #[trigger] more[i]@ == k;
            if i < keys.len() {
                assert(keys[i]@ == k);
            }
        }
    }
    assert(key_set(more) =~= key_set(keys).insert(key@));
}

/// Every key comes before those behind it, so that none is there twice.
pub open spec fn keys_increase(keys: Seq<Resource>) -> bool {
    forall|i: int, j: int| 0 <= i < j < keys.len() ==> resource_less(keys[i]@, keys[j]@)
}

/// What an upload claims.
pub fn upload_resources(scope: &Scope, intent: &UploadIntent) -> (keys: Vec<Resource>)
    ensures
        key_set(keys@) == upload_keys(scope@, *intent),
        keys@.len() == 1,
{
    let key = match intent {
        UploadIntent::Create { parent, name } => Resource::Name {
            scope: scope.clone(),
            parent: parent.clone(),
            name: to_lowercase(name.as_str()),
        },
        UploadIntent::Replace { item, .. } => Resource::Item {
            scope: scope.clone(),
            item: item.clone(),
        },
    };
    let mut keys: Vec<Resource> = Vec::new();
    proof {
        lemma_key_push(keys@, key);
        assert(key_set(keys@) =~= Set::<ResourceView>::empty());
        assert(key_set(keys@.push(key)) =~= upload_keys(scope@, *intent));
    }
    keys.push(key);
    keys
}

/// Puts a key at its place among increasing ones, where it is not there yet.
fn insert_key(keys: &mut Vec<Resource>, key: Resource)
    requires
        keys_increase(old(keys)@),
    ensures
        keys_increase(final(keys)@),
        key_set(final(keys)@) == key_set(old(keys)@).insert(key@),
{
    let ghost before = keys@;
    let ghost value = key@;
    let mut at: usize = 0;
    while at < keys.len() && keys[at].before(&key)
        invariant
            at <= keys@.len(),
            keys@ == before,
            value == key@,
            forall|i: int| 0 <= i < at ==> resource_less(#[trigger] before[i]@, value),
        decreases keys@.len() - at,
    {
        at = at + 1;
    }
    if at < keys.len() && keys[at].same(&key) {
        proof {
            assert(before[at as int]@ == value);
            assert(key_set(before) =~= key_set(before).insert(value));
        }
        return;
    }
    proof {
        assert forall|i: int| at <= i < before.len() implies resource_less(
            value,
            #[trigger] before[i]@,
        ) by {
            lemma_resource_order(value, before[at as int]@);
            if i > at {
                assert(resource_less(before[at as int]@, before[i]@));
                lemma_resource_transitive(value, before[at as int]@, before[i]@);
            }
        }
    }
    keys.insert(at, key);
    proof {
        let after = keys@;
        assert forall|i: int, j: int| 0 <= i < j < after.len() implies resource_less(
            after[i]@,
            after[j]@,
        ) by {
            let x = if i < at {
                i
            } else {
                i - 1
            };
            let y = if j < at {
                j
            } else {
                j - 1
            };
            if i != at {
                assert(after[i] == before[x]);
            }
            if j != at {
                assert(after[j] == before[y]);
            }
            if i != at && j != at {
                assert(resource_less(before[x]@, before[y]@));
            }
        }
        assert forall|k: ResourceView|
            key_set(after).contains(k) <==> key_set(before).insert(value).contains(k) by {
            if key_set(before).contains(k) {
                let i = choose|i: int| 0 <= i < before.len() && #[trigger] before[i]@ == k;
                if i < at {
                    assert(after[i]@ == k);
                } else {
                    assert(after[i + 1]@ == k);
                }
            }
            assert(after[at as int]@ == value);
            if key_set(after).contains(k) {
                let i = choose|i: int| 0 <= i < after.len() && #[trigger] after[i]@ == k;
                if i < at {
                    assert(before[i]@ == k);
                } else if i > at {
                    assert(before[i - 1]@ == k);
                }
            }
        }
        assert(key_set(after) =~= key_set(before).insert(value));
    }
}

/// What a namespace change claims, in order and each thing once.
pub fn mutation_resources(request: &MutationRequest) -> (result: Result<
    Vec<Resource>,
    JournalError,
>)
    ensures
        match result {
            Ok(keys) => mutation_keys(*request) == Ok::<Set<ResourceView>, JournalError>(
                key_set(keys@),
            ) && keys_increase(keys@),
            Err(error) => mutation_keys(*request) == Err::<Set<ResourceView>, JournalError>(error),
        },
{
    let scope = &request.scope;
    let mut keys: Vec<Resource> = Vec::new();
    proof {
        assert(key_set(keys@) =~= Set::<ResourceView>::empty());
    }
    if let Some(before) = request.intent.before() {
        let parent = match &before.parent_id {
            Some(parent) => parent,
            None => {
                return Err(JournalError::Intent);
            },
        };
        let item = Resource::Item { scope: scope.clone(), item: before.id.clone() };
        insert_key(&mut keys, item);
        let name = Resource::Name {
            scope: scope.clone(),
            parent: parent.clone(),
            name: to_lowercase(before.name.as_str()),
        };
        insert_key(&mut keys, name);
        proof {
            assert(key_set(keys@) =~= set![
                item_key(scope@, before.id@),
                slot_key(scope@, parent@, before.name@),
            ]);
        }
    }
    if let Some((parent, name)) = request.intent.destination() {
        let key = Resource::Name {
            scope: scope.clone(),
            parent: parent.clone(),
            name: to_lowercase(name.as_str()),
        };
        insert_key(&mut keys, key);
    }
    Ok(keys)
}

/// The claims of one operation.
pub open spec fn claimed(id: Id, keys: Set<ResourceView>) -> Set<(Id, ResourceView)> {
    Set::new(|claim: (Id, ResourceView)| claim.0 == id && keys.contains(claim.1))
}

/// Claims every key for one operation.
pub fn claim_all(table: &mut ResourceTable, id: Id, keys: Vec<Resource>)
    ensures
        final(table)@ == old(table)@.union(claimed(id, key_set(keys@))),
{
    let ghost before = table@;
    let mut i: usize = 0;
    proof {
        assert(key_set(keys@.subrange(0, 0)) =~= Set::<ResourceView>::empty());
        assert(before.union(claimed(id, Set::<ResourceView>::empty())) =~= before);
    }
    while i < keys.len()
        invariant
            i <= keys@.len(),
            table@ == before.union(claimed(id, key_set(keys@.subrange(0, i as int)))),
        decreases keys@.len() - i,
    {
        proof {
            let part = keys@.subrange(0, i as int);
            assert(keys@.subrange(0, i + 1) =~= part.push(keys@[i as int]));
            lemma_key_push(part, keys@[i as int]);
            assert(before.union(claimed(id, key_set(part).insert(keys@[i as int]@)))
                =~= before.union(claimed(id, key_set(part))).insert((id, keys@[i as int]@)));
        }
        table.insert(id, keys[i].clone());
        i = i + 1;
    }
    proof {
        assert(keys@.subrange(0, i as int) =~= keys@);
    }
}

/// An operation takes the next place in the queue and claims its resources.
pub open spec fn enqueued(journal: JournalView, id: Id, keys: Set<ResourceView>) -> Result<
    JournalView,
    JournalError,
> {
    if journal.queue.contains_key(id) || journal.last_sequence >= COUNTER_LIMIT {
        Err(JournalError::Storage)
    } else {
        Ok(
            JournalView {
                last_sequence: (journal.last_sequence + 1) as u64,
                queue: journal.queue.insert(
                    id,
                    QueueRow { sequence: (journal.last_sequence + 1) as u64, complete: false },
                ),
                resources: journal.resources.union(claimed(id, keys)),
                ..journal
            },
        )
    }
}

/// The operation stands in the queue before this place.
pub open spec fn queued_before(journal: JournalView, id: Id, sequence: u64) -> bool {
    journal.queue.contains_key(id) && 0 < journal.queue[id].sequence < sequence
}

/// The operation follows its base, which has no other content successor.
pub open spec fn depended(
    journal: JournalView,
    id: Id,
    sequence: u64,
    base: Option<WriteBase>,
) -> Result<JournalView, JournalError> {
    match base {
        None => Ok(journal),
        Some(base) => if base.resolved || !queued_before(journal, base.predecessor, sequence)
            || journal.successors.contains_key(base.predecessor) || journal.successors.contains_value(
            id,
        ) {
            Err(JournalError::Stale)
        } else {
            Ok(
                JournalView {
                    successors: journal.successors.insert(base.predecessor, id),
                    ..journal
                },
            )
        },
    }
}

/// The scope of a queued operation.
pub open spec fn operation_scope(journal: JournalView, id: Id) -> Option<ScopeView> {
    if journal.uploads.contains_key(id) {
        Some(journal.uploads[id].scope@)
    } else if journal.mutations.contains_key(id) {
        Some(journal.mutations[id].request.scope@)
    } else {
        None
    }
}

/// Why a list of prerequisites is refused, from one position on.
pub open spec fn prerequisite_refusal(
    journal: JournalView,
    scope: ScopeView,
    ids: Seq<Id>,
    from: int,
) -> Option<JournalError>
    decreases ids.len() - from,
{
    if from < 0 || from >= ids.len() {
        None
    } else if ids.subrange(0, from).contains(ids[from]) {
        Some(JournalError::Intent)
    } else {
        match operation_scope(journal, ids[from]) {
            None => Some(JournalError::Missing),
            Some(actual) => if actual != scope {
                Some(JournalError::Account)
            } else {
                prerequisite_refusal(journal, scope, ids, from + 1)
            },
        }
    }
}

/// Why a list of prerequisites is refused.
pub open spec fn barrier_refusal(journal: JournalView, scope: ScopeView, ids: Seq<Id>) -> Option<
    JournalError,
> {
    if ids.len() > PREREQUISITE_LIMIT {
        Some(JournalError::Quota)
    } else {
        prerequisite_refusal(journal, scope, ids, 0)
    }
}

/// The pairs that make one operation wait for others.
pub open spec fn waits(id: Id, ids: Seq<Id>) -> Set<(Id, Id)> {
    Set::new(|pair: (Id, Id)| pair.0 == id && ids.contains(pair.1))
}

/// The operation waits for others, all of them queued before it.
pub open spec fn barred(
    journal: JournalView,
    id: Id,
    sequence: u64,
    scope: ScopeView,
    ids: Seq<Id>,
) -> Result<JournalView, JournalError> {
    match barrier_refusal(journal, scope, ids) {
        Some(error) => Err(error),
        None => if exists|i: int|
            0 <= i < ids.len() && !queued_before(journal, #[trigger] ids[i], sequence) {
            Err(JournalError::Stale)
        } else {
            Ok(
                JournalView {
                    prerequisites: journal.prerequisites.union(waits(id, ids)),
                    ..journal
                },
            )
        },
    }
}

/// The operation leads into a folder; a local folder is remembered until the
/// provider has given it an identity.
pub open spec fn bound(
    journal: JournalView,
    id: Id,
    sequence: u64,
    scope: ScopeView,
    parent: Seq<char>,
) -> Result<JournalView, JournalError> {
    match local_object(journal.objects, scope, parent) {
        None => Ok(journal),
        Some(folder) => if folder.node.kind != NodeKind::Folder || folder.unlinked
            || !folder.remote_owned {
            Err(JournalError::Intent)
        } else if folder.latest is Some && !queued_before(journal, folder.latest->0, sequence) {
            Err(JournalError::Stale)
        } else if folder.latest is None && folder.remote is None {
            Err(JournalError::Corrupt)
        } else if journal.destinations.contains_key(id) {
            Err(JournalError::Storage)
        } else {
            Ok(
                JournalView {
                    destinations: journal.destinations.insert(
                        id,
                        Destination {
                            parent: folder.id,
                            predecessor: folder.latest,
                            resolved: false,
                        },
                    ),
                    ..journal
                },
            )
        },
    }
}

impl UploadJournal {
    /// Takes the next place in the queue.
    pub fn queue_insert(&mut self, id: Id, keys: Vec<Resource>) -> (result: Result<(), JournalError>)
        ensures
            stepped(enqueued(old(self)@, id, key_set(keys@)), result, old(self)@, final(self)@),
            result is Ok ==> final(self)@.queue[id].sequence == final(self).last_sequence,
    {
        if self.queue.has(id) || self.last_sequence >= COUNTER_LIMIT {
            return Err(JournalError::Storage);
        }
        self.last_sequence = self.last_sequence + 1;
        self.queue.put(id, QueueRow { sequence: self.last_sequence, complete: false });
        claim_all(&mut self.resources, id, keys);
        Ok(())
    }

    /// Whether the operation stands in the queue before this place.
    pub fn queued_earlier(&self, id: Id, sequence: u64) -> (earlier: bool)
        ensures
            earlier == queued_before(self@, id, sequence),
    {
        match self.queue.get(id) {
            Some(row) => 0 < row.sequence && row.sequence < sequence,
            None => false,
        }
    }

    /// Whether some operation has this content successor.
    pub(crate) fn succeeds_some(&self, id: Id) -> (found: bool)
        ensures
            found == self@.successors.contains_value(id),
    {
        let ids = self.successors.ids();
        let mut i: usize = 0;
        while i < ids.len()
            invariant
                i <= ids@.len(),
                forall|k: Id| ids@.contains(k) <==> self@.successors.contains_key(k),
                forall|j: int|
                    0 <= j < ids@.len() ==> self@.successors.contains_key(#[trigger] ids@[j]),
                forall|j: int| 0 <= j < i ==> self@.successors[#[trigger] ids@[j]] != id,
            decreases ids@.len() - i,
        {
            if let Some(successor) = self.successors.get(ids[i]) {
                if *successor == id {
                    return true;
                }
            }
            i = i + 1;
        }
        proof {
            assert forall|k: Id| self@.successors.contains_key(k) implies self@.successors[k]
                != id by {
                assert(ids@.contains(k));
                let j = choose|j: int| 0 <= j < ids@.len() && ids@[j] == k;
                assert(self@.successors[ids@[j]] != id);
            }
        }
        false
    }

    /// Records the one content successor of the base.
    pub fn insert_dependency(&mut self, id: Id, sequence: u64, base: Option<WriteBase>) -> (result:
        Result<(), JournalError>)
        ensures
            stepped(depended(old(self)@, id, sequence, base), result, old(self)@, final(self)@),
    {
        let base = match base {
            Some(base) => base,
            None => {
                return Ok(());
            },
        };
        if base.resolved || !self.queued_earlier(base.predecessor, sequence)
            || self.successors.has(base.predecessor) || self.succeeds_some(id) {
            return Err(JournalError::Stale);
        }
        self.successors.put(base.predecessor, id);
        Ok(())
    }

    /// Whether the operation exists within the scope.
    fn check_prerequisite(&self, scope: &Scope, id: Id) -> (result: Result<(), JournalError>)
        ensures
            match result {
                Ok(()) => operation_scope(self@, id) == Some(scope@),
                Err(error) => match operation_scope(self@, id) {
                    None => error == JournalError::Missing,
                    Some(actual) => actual != scope@ && error == JournalError::Account,
                },
            },
    {
        if let Some(record) = self.uploads.get(id) {
            if record.scope.same(scope) {
                return Ok(());
            }
            return Err(JournalError::Account);
        }
        if let Some(record) = self.mutations.get(id) {
            if record.request.scope.same(scope) {
                return Ok(());
            }
            return Err(JournalError::Account);
        }
        Err(JournalError::Missing)
    }

    /// Refuses prerequisites that are too many, repeated, unknown or of another
    /// scope.
    pub fn validate_prerequisites(&self, scope: &Scope, ids: &Vec<Id>) -> (result: Result<
        (),
        JournalError,
    >)
        ensures
            match result {
                Ok(()) => barrier_refusal(self@, scope@, ids@) is None,
                Err(error) => barrier_refusal(self@, scope@, ids@) == Some(error),
            },
    {
        if ids.len() > PREREQUISITE_LIMIT {
            return Err(JournalError::Quota);
        }
        let mut i: usize = 0;
        while i < ids.len()
            invariant
                i <= ids@.len(),
                prerequisite_refusal(self@, scope@, ids@, 0) == prerequisite_refusal(
                    self@,
                    scope@,
                    ids@,
                    i as int,
                ),
                ids@.len() <= PREREQUISITE_LIMIT,
            decreases ids@.len() - i,
        {
            let mut j: usize = 0;
            while j < i
                invariant
                    j <= i < ids@.len(),
                    forall|k: int| 0 <= k < j ==> #[trigger] ids@[k] != ids@[i as int],
                    prerequisite_refusal(self@, scope@, ids@, 0) == prerequisite_refusal(
                        self@,
                        scope@,
                        ids@,
                        i as int,
                    ),
                    ids@.len() <= PREREQUISITE_LIMIT,
                decreases i - j,
            {
                if ids[j] == ids[i] {
                    proof {
                        assert(ids@.subrange(0, i as int)[j as int] == ids@[i as int]);
                    }
                    return Err(JournalError::Intent);
                }
                j = j + 1;
            }
            proof {
                assert(!ids@.subrange(0, i as int).contains(ids@[i as int]));
            }
            self.check_prerequisite(scope, ids[i])?;
            i = i + 1;
        }
        Ok(())
    }

    /// Makes the operation wait for others.
    pub fn insert_prerequisites(
        &mut self,
        id: Id,
        sequence: u64,
        scope: &Scope,
        ids: &Vec<Id>,
    ) -> (result: Result<(), JournalError>)
        ensures
            stepped(barred(old(self)@, id, sequence, scope@, ids@), result, old(self)@, final(self)@),
    {
        self.validate_prerequisites(scope, ids)?;
        let mut i: usize = 0;
        while i < ids.len()
            invariant
                i <= ids@.len(),
                self@ == old(self)@,
                forall|j: int| 0 <= j < i ==> queued_before(self@, #[trigger] ids@[j], sequence),
                barrier_refusal(self@, scope@, ids@) is None,
            decreases ids@.len() - i,
        {
            if !self.queued_earlier(ids[i], sequence) {
                return Err(JournalError::Stale);
            }
            i = i + 1;
        }
        let ghost start = self@;
        let mut k: usize = 0;
        proof {
            assert(start.prerequisites.union(waits(id, ids@.subrange(0, 0)))
                =~= start.prerequisites);
        }
        while k < ids.len()
            invariant
                k <= ids@.len(),
                self@ == (JournalView {
                    prerequisites: start.prerequisites.union(
                        waits(id, ids@.subrange(0, k as int)),
                    ),
                    ..start
                }),
            decreases ids@.len() - k,
        {
            proof {
                let part = ids@.subrange(0, k as int);
                assert(ids@.subrange(0, k + 1) =~= part.push(ids@[k as int]));
                lemma_push_contains(part, ids@[k as int]);
                assert(start.prerequisites.union(waits(id, part.push(ids@[k as int])))
                    =~= start.prerequisites.union(waits(id, part)).insert((id, ids@[k as int])));
            }
            self.prerequisites.insert(id, ids[k]);
            k = k + 1;
        }
        proof {
            assert(ids@.subrange(0, k as int) =~= ids@);
        }
        Ok(())
    }

    /// Remembers a local destination folder until the provider knows it.
    pub fn bind_destination(
        &mut self,
        id: Id,
        sequence: u64,
        scope: &Scope,
        parent: &str,
    ) -> (result: Result<(), JournalError>)
        ensures
            stepped(bound(old(self)@, id, sequence, scope@, parent@), result, old(self)@, final(self)@),
    {
        let folder = match self.namespace_by_local(scope, parent) {
            Some(folder) => folder,
            None => {
                return Ok(());
            },
        };
        if folder.node.kind != NodeKind::Folder || folder.unlinked || !folder.remote_owned {
            return Err(JournalError::Intent);
        }
        match folder.latest {
            Some(predecessor) => {
                if !self.queued_earlier(predecessor, sequence) {
                    return Err(JournalError::Stale);
                }
            },
            None => {
                if folder.remote.is_none() {
                    return Err(JournalError::Corrupt);
                }
            },
        }
        if self.destinations.has(id) {
            return Err(JournalError::Storage);
        }
        self.destinations.put(
            id,
            Destination { parent: folder.id, predecessor: folder.latest, resolved: false },
        );
        Ok(())
    }
}

} // verus!
