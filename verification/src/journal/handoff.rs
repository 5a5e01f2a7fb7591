//! Detaching acknowledged working bytes without losing the stable local identity.
//! Provider metadata is obtained before the commit and checked against a revision.
use crate::journal::directories::{follow_node_refusal, following_node, localized};
use crate::journal::generations::{answered, find, Operation};
use crate::journal::listing::{listing, select};
use crate::journal::namespace::save_step;
use crate::journal::observation::same_id;
use crate::journal::receipts::upserted;
use crate::journal::records::{
    JournalError, JournalView, MutationState, NamespaceObject, UploadJournal, UploadRecord,
    UploadState, WorkingFile,
};
use crate::journal::tables::increasing;
use crate::journal::unlinked::READER_PAGE;
use crate::journal::uploads::shorter;
use crate::model::{
    node_view, same_node, Id, MutationReceipt, Node, NodeView,
};
use vstd::prelude::*;

verus! {

/// How many payloads or streams one pass collects at most.
pub const COLLECT_LIMIT: u32 = 1000;

/// The operation is confirmed.
pub open spec fn is_confirmed(journal: JournalView, operation: Id) -> bool {
    match find(journal, operation) {
        Some(Operation::Upload(record)) => record.state == UploadState::Uploaded,
        Some(Operation::Mutation(record)) => record.state == MutationState::Applied,
        None => false,
    }
}

/// Every operation on the object is confirmed. Sealed is not uploaded.
pub open spec fn all_confirmed(journal: JournalView, object: Id) -> bool {
    forall|operation: Id| #[trigger]
        journal.operations.contains_key(operation) && journal.operations[operation] == object
            ==> is_confirmed(journal, operation)
}

/// The place and the node of a confirmed operation.
pub open spec fn receipt_of(journal: JournalView, operation: Id) -> Option<(u64, Option<NodeView>)> {
    match find(journal, operation) {
        Some(Operation::Upload(record)) => if record.state == UploadState::Uploaded {
            Some((record.sequence, node_view(record.remote)))
        } else {
            None
        },
        Some(Operation::Mutation(record)) => if record.state == MutationState::Applied {
            Some((record.sequence, node_view(upserted(record.receipt))))
        } else {
            None
        },
        None => None,
    }
}

/// The stream holds nothing that its object does not present.
pub open spec fn stream_clean(file: WorkingFile, object: NamespaceObject) -> bool {
    !file.dirty && file.latest == object.latest && file.node@ == object.node@
}

/// Whether nothing local is left to be sent for an object. A newer dirty generation
/// is never discarded.
pub open spec fn cleanliness(journal: JournalView, object: NamespaceObject) -> Result<
    bool,
    JournalError,
> {
    if object.scope.account@ != journal.account || object.follows_remote || object.unlinked
        || object.remote is None {
        Ok(false)
    } else if object.working_file is Some && !journal.working.contains_key(object.working_file->0) {
        Err(JournalError::Missing)
    } else if object.working_file is Some && !stream_clean(
        journal.working[object.working_file->0],
        object,
    ) {
        Ok(false)
    } else if !all_confirmed(journal, object.id) {
        Ok(false)
    } else {
        match object.latest {
            None => Ok(true),
            Some(latest) => if find(journal, latest) is None {
                Err(JournalError::Missing)
            } else {
                match receipt_of(journal, latest) {
                    None => Ok(false),
                    Some(receipt) => Ok(
                        receipt.1 == node_view(object.remote) && receipt.0
                            == object.remote_sequence,
                    ),
                }
            },
        }
    }
}

/// The object with the provider's node, below the local identity of its parent.
pub open spec fn handed_object(journal: JournalView, object: NamespaceObject, remote: Node) -> NamespaceObject {
    NamespaceObject {
        node: localized(journal, object.scope@, following_node(object, remote).node),
        ..following_node(object, remote)
    }
}

/// The stream leaves the journal; its bytes may be deleted later.
pub open spec fn stream_retired(journal: JournalView, working: Option<Id>) -> Result<
    JournalView,
    JournalError,
> {
    match working {
        None => Ok(journal),
        Some(id) => if journal.retired.contains_key(id) {
            Err(JournalError::Storage)
        } else if !journal.working.contains_key(id) {
            Err(JournalError::Stale)
        } else {
            Ok(
                JournalView {
                    retired: journal.retired.insert(id, true),
                    working: journal.working.remove(id),
                    ..journal
                },
            )
        },
    }
}

/// The provider's metadata owns the entry again. A changed object, a pending
/// successor or a dirty generation invalidates the candidate.
pub open spec fn handed_off(journal: JournalView, id: Id, revision: u64, remote: Node, valid: bool) -> Result<
    (JournalView, NamespaceObject),
    JournalError,
> {
    if !journal.objects.contains_key(id) {
        Err(JournalError::Missing)
    } else {
        let object = journal.objects[id];
        if object.revision != revision {
            Err(JournalError::Stale)
        } else {
            match cleanliness(journal, object) {
                Err(error) => Err(error),
                Ok(clean) => if !clean {
                    Err(JournalError::Stale)
                } else {
                    match follow_node_refusal(object, remote, valid) {
                        Some(error) => Err(error),
                        None => match stream_retired(journal, object.working_file) {
                            Err(error) => Err(error),
                            Ok(state) => {
                                let handed = handed_object(journal, object, remote);
                                match save_step(state, handed) {
                                    Err(error) => Err(error),
                                    Ok(state) => Ok((state, handed)),
                                }
                            },
                        },
                    }
                },
            }
        }
    }
}

/// The acknowledged uploads whose payload is still stored.
pub open spec fn collectable(journal: JournalView) -> spec_fn(Id, UploadRecord) -> bool {
    |id: Id, record: UploadRecord|
        record.state == UploadState::Uploaded && !journal.collected.contains_key(id)
}

/// The objects behind an identity that have an entry to hand off, in order, up to a
/// limit.
pub open spec fn is_candidate(journal: JournalView, after: Option<Id>, id: Id) -> bool {
    journal.objects.contains_key(id) && !journal.objects[id].follows_remote && (after is None || id
        > after->0)
}

impl UploadJournal {
    /// Whether an operation is confirmed.
    fn operation_confirmed(&self, id: Id) -> (confirmed: bool)
        ensures
            confirmed == is_confirmed(self@, id),
    {
        if let Some(record) = self.uploads.get(id) {
            return record.state == UploadState::Uploaded;
        }
        match self.mutations.get(id) {
            Some(record) => record.state == MutationState::Applied,
            None => false,
        }
    }

    /// Whether every operation on an object is confirmed.
    fn object_confirmed(&self, object: Id) -> (confirmed: bool)
        ensures
            confirmed == all_confirmed(self@, object),
    {
        let ids = self.operations.ids();
        let mut i: usize = 0;
        while i < ids.len()
            invariant
                i <= ids@.len(),
                forall|id: Id| ids@.contains(id) <==> self@.operations.contains_key(id),
                forall|j: int|
                    0 <= j < ids@.len() ==> self@.operations.contains_key(#[trigger] ids@[j]),
                forall|j: int|
                    #![trigger ids@[j]]
                    0 <= j < i ==> (self@.operations[ids@[j]] == object ==> is_confirmed(
                        self@,
                        ids@[j],
                    )),
            decreases ids@.len() - i,
        {
            let id = ids[i];
            assert(self@.operations.contains_key(ids@[i as int]));
            if let Some(owner) = self.operations.get(id) {
                if *owner == object && !self.operation_confirmed(id) {
                    return false;
                }
            }
            i = i + 1;
        }
        proof {
            assert forall|operation: Id| #[trigger]
                self@.operations.contains_key(operation) && self@.operations[operation]
                    == object implies is_confirmed(self@, operation) by {
                assert(ids@.contains(operation));
                let j = choose|j: int| 0 <= j < ids@.len() && ids@[j] == operation;
                assert(ids@[j] == operation);
            }
        }
        true
    }

    /// Whether nothing local is left to be sent for an object.
    pub fn namespace_is_clean(&self, object: &NamespaceObject) -> (result: Result<
        bool,
        JournalError,
    >)
        ensures
            result == cleanliness(self@, *object),
    {
        if object.scope.account != self.account || object.follows_remote || object.unlinked
            || object.remote.is_none() {
            return Ok(false);
        }
        if let Some(id) = object.working_file {
            let file = self.working_file(id)?;
            if file.dirty || !same_id(file.latest, object.latest) || !file.node.same(&object.node) {
                return Ok(false);
            }
        }
        if !self.object_confirmed(object.id) {
            return Ok(false);
        }
        let latest = match object.latest {
            Some(latest) => latest,
            None => {
                return Ok(true);
            },
        };
        match self.operation(latest)? {
            Operation::Upload(record) => {
                if record.state != UploadState::Uploaded {
                    return Ok(false);
                }
                Ok(
                    same_node(&record.remote, &object.remote) && record.sequence
                        == object.remote_sequence,
                )
            },
            Operation::Mutation(record) => {
                if record.state != MutationState::Applied {
                    return Ok(false);
                }
                let node = match record.receipt {
                    Some(MutationReceipt::Upsert(node)) => Some(node),
                    _ => None,
                };
                Ok(same_node(&node, &object.remote) && record.sequence == object.remote_sequence)
            },
        }
    }

    /// Commits a handoff after a fresh provider observation. Physical deletion is
    /// separate and can be repeated. `valid` is the verdict on the object's
    /// `following_request`.
    pub fn handoff_namespace(&mut self, id: Id, revision: u64, remote: Node, valid: bool) -> (result:
        Result<NamespaceObject, JournalError>)
        ensures
            answered(
                handed_off(old(self)@, id, revision, remote, valid),
                result,
                old(self)@,
                final(self)@,
            ),
    {
        let object = self.namespace_object(id)?;
        if object.revision != revision || !self.namespace_is_clean(&object)? {
            return Err(JournalError::Stale);
        }
        let handed = self.following_namespace(&object, remote, valid)?;
        let mut tx = self.copy();
        if let Some(working) = object.working_file {
            if tx.retired.has(working) {
                return Err(JournalError::Storage);
            }
            if !tx.working.has(working) {
                return Err(JournalError::Stale);
            }
            tx.retired.put(working, true);
            tx.working.take(working);
        }
        tx.save_object(handed.clone())?;
        *self = tx;
        Ok(handed)
    }

    /// The first objects behind an identity that have an entry to hand off.
    pub fn handoff_candidates(&self, after: Option<Id>, limit: u32) -> (found: Vec<Id>)
        ensures
            increasing(found@),
            found@.len() <= shorter(limit as int, READER_PAGE as int),
            forall|id: Id| #[trigger] found@.contains(id) ==> is_candidate(self@, after, id),
            forall|id: Id|
                #![trigger is_candidate(self@, after, id)]
                is_candidate(self@, after, id) && !found@.contains(id) ==> found@.len() == shorter(
                    limit as int,
                    READER_PAGE as int,
                ) && (found@.len() > 0 ==> found@.last() < id),
    {
        let size: usize = if limit < READER_PAGE {
            limit as usize
        } else {
            READER_PAGE as usize
        };
        let ids = self.objects.ids();
        let mut found: Vec<Id> = Vec::new();
        let mut i: usize = 0;
        while i < ids.len() && found.len() < size
            invariant
                i <= ids@.len(),
                size == shorter(limit as int, READER_PAGE as int),
                increasing(ids@),
                increasing(found@),
                found@.len() <= size,
                forall|id: Id| ids@.contains(id) <==> self@.objects.contains_key(id),
                forall|j: int| 0 <= j < ids@.len() ==> self@.objects.contains_key(#[trigger] ids@[j]),
                forall|id: Id| #[trigger]
                    found@.contains(id) <==> is_candidate(self@, after, id) && ids@.subrange(
                        0,
                        i as int,
                    ).contains(id),
                found@.len() > 0 ==> i > 0 && found@.last() <= ids@[i - 1],
            decreases ids@.len() - i,
        {
            let id = ids[i];
            proof {
                crate::seqs::lemma_prefix_contains(ids@, i as int);
                assert(self@.objects.contains_key(ids@[i as int]));
            }
            let behind = match after {
                Some(after) => id > after,
                None => true,
            };
            if let Some(object) = self.objects.get(id) {
                if behind && !object.follows_remote {
                    proof {
                        crate::seqs::lemma_push_contains(found@, id);
                        if found@.len() > 0 {
                            assert(ids@[i - 1] < ids@[i as int]);
                        }
                    }
                    found.push(id);
                }
            }
            i = i + 1;
        }
        proof {
            assert forall|id: Id|
                #![trigger is_candidate(self@, after, id)]
                is_candidate(self@, after, id) && !found@.contains(id) implies found@.len()
                == shorter(limit as int, READER_PAGE as int) && (found@.len() > 0 ==> found@.last()
                < id) by {
                assert(ids@.contains(id));
                let j = choose|j: int| 0 <= j < ids@.len() && ids@[j] == id;
                if j < i {
                    assert(ids@.subrange(0, i as int)[j] == id);
                    assert(ids@.subrange(0, i as int).contains(id));
                }
                assert(j >= i);
                if found@.len() > 0 {
                    assert(ids@[i - 1] < ids@[j]);
                }
            }
        }
        found
    }

    /// The acknowledged uploads whose payload is still stored, in order, up to a
    /// limit.
    pub fn uploaded_payloads(&self, limit: u32) -> (page: Vec<Id>)
        ensures
            exists|rows: Seq<(u64, Id)>| #[trigger]
                listing(self@.uploads, collectable(self@), rows) && page@.len() == shorter(
                    rows.len() as int,
                    shorter(limit as int, COLLECT_LIMIT as int),
                ) && forall|i: int| 0 <= i < page@.len() ==> #[trigger] page@[i] == rows[i].1,
    {
        let keep = |id: Id, record: &UploadRecord| -> (kept: bool)
            ensures
                kept == (record.state == UploadState::Uploaded && !self@.collected.contains_key(id)),
            { record.state == UploadState::Uploaded && !self.collected.has(id) };
        let rows = select(&self.uploads, keep, Ghost(collectable(self@)));
        let size: usize = if limit < COLLECT_LIMIT {
            limit as usize
        } else {
            COLLECT_LIMIT as usize
        };
        let mut page: Vec<Id> = Vec::new();
        let mut i: usize = 0;
        while i < rows.len() && i < size
            invariant
                i <= rows@.len(),
                i <= size,
                size == shorter(limit as int, COLLECT_LIMIT as int),
                page@.len() == i,
                listing(self@.uploads, collectable(self@), rows@),
                forall|j: int| 0 <= j < i ==> #[trigger] page@[j] == rows@[j].1,
            decreases rows@.len() - i,
        {
            page.push(rows[i].1);
            i = i + 1;
        }
        page
    }

    /// Records that an acknowledged payload was removed. The receipt stays.
    pub fn mark_collected(&mut self, id: Id)
        ensures
            final(self)@ == (if old(self)@.uploads.contains_key(id) && old(self)@.uploads[id].state
                == UploadState::Uploaded {
                JournalView { collected: old(self)@.collected.insert(id, true), ..old(self)@ }
            } else {
                old(self)@
            }),
    {
        let uploaded = match self.uploads.get(id) {
            Some(record) => record.state == UploadState::Uploaded,
            None => false,
        };
        if uploaded {
            self.collected.put(id, true);
        }
    }

    /// Whether a retired stream's bytes may be deleted. Only an explicit retirement
    /// authorizes deletion.
    pub fn may_delete_stream(&self, id: Id) -> (result: Result<bool, JournalError>)
        ensures
            result == (if !self@.retired.contains_key(id) {
                Ok::<bool, JournalError>(false)
            } else if self@.working.contains_key(id) {
                Err(JournalError::Corrupt)
            } else {
                Ok(true)
            }),
    {
        if !self.retired.has(id) {
            return Ok(false);
        }
        if self.working.has(id) {
            return Err(JournalError::Corrupt);
        }
        Ok(true)
    }

    /// The retired streams, in order, up to a limit.
    pub fn retired_working(&self, limit: u32) -> (page: Vec<Id>)
        ensures
            increasing(page@),
            forall|i: int| 0 <= i < page@.len() ==> self@.retired.contains_key(#[trigger] page@[i]),
            page@.len() == shorter(
                self@.retired.len() as int,
                shorter(limit as int, COLLECT_LIMIT as int),
            ),
            forall|id: Id| #[trigger]
                self@.retired.contains_key(id) && !page@.contains(id) ==> forall|i: int|
                    0 <= i < page@.len() ==> #[trigger] page@[i] < id,
    {
        let ids = self.retired.ids();
        let size: usize = if limit < COLLECT_LIMIT {
            limit as usize
        } else {
            COLLECT_LIMIT as usize
        };
        let mut page: Vec<Id> = Vec::new();
        let mut i: usize = 0;
        while i < ids.len() && i < size
            invariant
                i <= ids@.len(),
                i <= size,
                page@ == ids@.subrange(0, i as int),
            decreases ids@.len() - i,
        {
            proof {
                crate::seqs::lemma_prefix_contains(ids@, i as int);
            }
            page.push(ids[i]);
            i = i + 1;
        }
        proof {
            assert forall|id: Id| #[trigger]
                self@.retired.contains_key(id) && !page@.contains(id) implies forall|k: int|
                0 <= k < page@.len() ==> #[trigger] page@[k] < id by {
                assert(ids@.contains(id));
                let at = choose|at: int| 0 <= at < ids@.len() && ids@[at] == id;
                if at < i {
                    assert(page@[at] == id);
                }
                assert forall|k: int| 0 <= k < page@.len() implies #[trigger] page@[k] < id by {
                    assert(ids@[k] < ids@[at]);
                }
            }
        }
        page
    }

    /// Forgets a retired stream whose bytes are gone.
    pub fn forget_retired(&mut self, id: Id)
        ensures
            final(self)@ == (JournalView { retired: old(self)@.retired.remove(id), ..old(self)@ }),
    {
        self.retired.take(id);
    }
}

/// A handoff never discards local bytes that are not at the provider: the object had
/// no dirty stream and every operation on it was confirmed.
pub proof fn handoff_discards_nothing(journal: JournalView, id: Id, revision: u64, remote: Node, valid: bool)
    requires
        handed_off(journal, id, revision, remote, valid) is Ok,
    ensures
        all_confirmed(journal, journal.objects[id].id),
        journal.objects[id].working_file is Some ==> !journal.working[journal.objects[id].working_file->0].dirty,
        handed_off(journal, id, revision, remote, valid)->Ok_0.1.node.id@ == journal.objects[id].node.id@,
{
}

} // verus!
