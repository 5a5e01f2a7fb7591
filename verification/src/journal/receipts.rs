//! What a confirmed operation changes: its place in the queue is complete, and the
//! object it acted on learns its provider metadata. An acknowledged replacement
//! moves three bindings at once.
use crate::journal::namespace::{bumped, next_revision, save_step};
use crate::journal::queue::stepped;
use crate::journal::records::{
    JournalError, JournalView, MutationRecord, MutationState, NamespaceObject, QueueRow,
    ReplacementRecord, UploadJournal, UploadRecord, UploadState,
};
use crate::model::{Id, MutationReceipt, Node};
use vstd::prelude::*;

verus! {

/// The object with the metadata that a receipt confirmed. An object with working
/// bytes keeps its own presentation of them.
pub open spec fn with_receipt(object: NamespaceObject, sequence: u64, remote: Node) -> NamespaceObject {
    NamespaceObject {
        remote: Some(remote),
        remote_sequence: sequence,
        node: if object.working_file is None {
            Node {
                etag: remote.etag,
                content_version: remote.content_version,
                size: remote.size,
                modified_unix: remote.modified_unix,
                ..object.node
            }
        } else {
            object.node
        },
        ..object
    }
}

/// A receipt reaches the object that the operation acted on. An older receipt than
/// the one already known changes nothing.
pub open spec fn confirmed(
    journal: JournalView,
    operation: Id,
    sequence: u64,
    remote: Node,
) -> Result<JournalView, JournalError> {
    if !journal.operations.contains_key(operation) {
        Ok(journal)
    } else if !journal.objects.contains_key(journal.operations[operation]) {
        Err(JournalError::Missing)
    } else {
        let object = journal.objects[journal.operations[operation]];
        if sequence <= object.remote_sequence {
            Ok(journal)
        } else if (object.remote is Some && object.remote->0.id@ != remote.id@) || remote.kind
            != object.node.kind || remote.target is Some {
            Err(JournalError::Corrupt)
        } else {
            match bumped(with_receipt(object, sequence, remote)) {
                Err(error) => Err(error),
                Ok(next) => save_step(journal, next),
            }
        }
    }
}

/// The victim of a replacement gives its provider identity up.
pub open spec fn disowned(victim: NamespaceObject) -> NamespaceObject {
    NamespaceObject { remote_owned: false, ..victim }
}

/// The source of a replacement takes the victim's provider identity.
pub open spec fn taken_over(source: NamespaceObject, sequence: u64, remote: Node) -> NamespaceObject {
    NamespaceObject { remote: Some(remote), remote_sequence: sequence, ..source }
}

/// The cleanup object takes the source's old provider identity.
pub open spec fn inherited(
    cleanup: NamespaceObject,
    old_source: Node,
    sequence: u64,
) -> NamespaceObject {
    NamespaceObject {
        node: Node { id: cleanup.node.id, ..old_source },
        remote: Some(old_source),
        remote_sequence: sequence,
        remote_owned: true,
        ..cleanup
    }
}

/// The three objects of a replacement do not fit the receipt.
pub open spec fn mismatched(
    source: NamespaceObject,
    victim: NamespaceObject,
    cleanup: NamespaceObject,
    sequence: u64,
    remote: Node,
) -> bool {
    ||| source.remote is None
    ||| !source.remote_owned
    ||| !victim.remote_owned
    ||| !victim.unlinked
    ||| victim.remote is None
    ||| victim.remote->0.id@ != remote.id@
    ||| source.remote->0.id@ == remote.id@
    ||| source.scope@ != victim.scope@
    ||| source.remote_sequence >= sequence
    ||| cleanup.remote_owned
    ||| !cleanup.unlinked
}

/// Moves the three bindings of a replacement.
pub open spec fn rebound(
    journal: JournalView,
    record: ReplacementRecord,
    source: NamespaceObject,
    victim: NamespaceObject,
    cleanup: NamespaceObject,
    sequence: u64,
    remote: Node,
) -> Result<JournalView, JournalError> {
    match bumped(disowned(victim)) {
        Err(error) => Err(error),
        Ok(victim) => match save_step(journal, victim) {
            Err(error) => Err(error),
            Ok(first) => match bumped(taken_over(source, sequence, remote)) {
                Err(error) => Err(error),
                Ok(next) => match save_step(first, next) {
                    Err(error) => Err(error),
                    Ok(second) => match bumped(
                        inherited(cleanup, source.remote->0, source.remote_sequence),
                    ) {
                        Err(error) => Err(error),
                        Ok(last) => match save_step(second, last) {
                            Err(error) => Err(error),
                            Ok(third) => Ok(
                                JournalView {
                                    replacements: third.replacements.insert(
                                        record.id,
                                        ReplacementRecord { remote_applied: true, ..record },
                                    ),
                                    ..third
                                },
                            ),
                        },
                    },
                },
            },
        },
    }
}

/// A receipt reaches a replacement. `None` says that the operation is none.
pub open spec fn replaced(
    journal: JournalView,
    operation: Id,
    sequence: u64,
    remote: Node,
) -> Result<Option<JournalView>, JournalError> {
    if !journal.replacements.contains_key(operation) {
        Ok(None)
    } else {
        let record = journal.replacements[operation];
        if record.remote_applied {
            Ok(Some(journal))
        } else if !record.local_ready {
            Err(JournalError::Stale)
        } else if !journal.objects.contains_key(record.source) || !journal.objects.contains_key(
            record.victim,
        ) || !journal.objects.contains_key(record.cleanup_object) {
            Err(JournalError::Missing)
        } else {
            let source = journal.objects[record.source];
            let victim = journal.objects[record.victim];
            let cleanup = journal.objects[record.cleanup_object];
            if mismatched(source, victim, cleanup, sequence, remote) {
                Err(JournalError::Corrupt)
            } else {
                match rebound(journal, record, source, victim, cleanup, sequence, remote) {
                    Ok(state) => Ok(Some(state)),
                    Err(error) => Err(error),
                }
            }
        }
    }
}

/// Marks the place of an operation complete or not.
pub open spec fn marked(journal: JournalView, id: Id, complete: bool) -> JournalView {
    JournalView {
        queue: journal.queue.insert(id, QueueRow { complete, ..journal.queue[id] }),
        ..journal
    }
}

/// Stores an upload, and lets a receipt reach the namespace.
pub open spec fn upload_saved(journal: JournalView, record: UploadRecord) -> Result<
    JournalView,
    JournalError,
> {
    if !journal.uploads.contains_key(record.id) {
        Err(JournalError::Missing)
    } else if !journal.queue.contains_key(record.id) {
        Err(JournalError::Corrupt)
    } else {
        let stored = marked(
            JournalView { uploads: journal.uploads.insert(record.id, record), ..journal },
            record.id,
            record.state == UploadState::Uploaded,
        );
        if record.state == UploadState::Uploaded && record.remote is Some {
            match replaced(stored, record.id, record.sequence, record.remote->0) {
                Err(error) => Err(error),
                Ok(Some(state)) => Ok(state),
                Ok(None) => confirmed(stored, record.id, record.sequence, record.remote->0),
            }
        } else {
            Ok(stored)
        }
    }
}

/// The node that a receipt upserts.
pub open spec fn upserted(receipt: Option<MutationReceipt>) -> Option<Node> {
    match receipt {
        Some(MutationReceipt::Upsert(node)) => Some(node),
        _ => None,
    }
}

/// Stores a namespace change, and lets a receipt reach the namespace.
pub open spec fn mutation_saved(journal: JournalView, record: MutationRecord) -> Result<
    JournalView,
    JournalError,
> {
    if !journal.mutations.contains_key(record.id) {
        Err(JournalError::Missing)
    } else if !journal.queue.contains_key(record.id) {
        Err(JournalError::Corrupt)
    } else {
        let stored = marked(
            JournalView { mutations: journal.mutations.insert(record.id, record), ..journal },
            record.id,
            record.state == MutationState::Applied,
        );
        if record.state == MutationState::Applied && upserted(record.receipt) is Some {
            confirmed(stored, record.id, record.sequence, upserted(record.receipt)->0)
        } else {
            Ok(stored)
        }
    }
}

impl UploadJournal {
    /// Lets a receipt reach the object that the operation acted on.
    pub fn confirm(&mut self, operation: Id, sequence: u64, remote: &Node) -> (result: Result<
        (),
        JournalError,
    >)
        ensures
            stepped(confirmed(old(self)@, operation, sequence, *remote), result, old(self)@, final(self)@),
    {
        let id = match self.operations.get(operation) {
            Some(id) => *id,
            None => {
                return Ok(());
            },
        };
        let mut object = self.namespace_object(id)?;
        if sequence <= object.remote_sequence {
            return Ok(());
        }
        let other = match &object.remote {
            Some(old) => old.id != remote.id,
            None => false,
        };
        if other || remote.kind != object.node.kind || remote.target.is_some() {
            return Err(JournalError::Corrupt);
        }
        object.remote = Some(remote.clone());
        object.remote_sequence = sequence;
        if object.working_file.is_none() {
            object.node.etag = crate::text::copy_optional(&remote.etag);
            object.node.content_version = crate::text::copy_optional(&remote.content_version);
            object.node.size = remote.size;
            object.node.modified_unix = remote.modified_unix;
        }
        next_revision(&mut object)?;
        self.save_object(object)
    }

    /// Lets a receipt reach a replacement: the victim gives its provider identity
    /// up, the source takes it, and the cleanup object takes the source's old one.
    pub fn confirm_replacement(&mut self, operation: Id, sequence: u64, remote: &Node) -> (result:
        Result<bool, JournalError>)
        ensures
            match (replaced(old(self)@, operation, sequence, *remote), result) {
                (Ok(Some(state)), Ok(known)) => known && final(self)@ == state,
                (Ok(None), Ok(known)) => !known && final(self)@ == old(self)@,
                (Err(wanted), Err(error)) => wanted == error && final(self)@ == old(self)@,
                _ => false,
            },
    {
        let mut record = match self.replacements.get(operation) {
            Some(record) => *record,
            None => {
                return Ok(false);
            },
        };
        if record.remote_applied {
            return Ok(true);
        }
        if !record.local_ready {
            return Err(JournalError::Stale);
        }
        let mut source = self.namespace_object(record.source)?;
        let mut victim = self.namespace_object(record.victim)?;
        let mut cleanup = self.namespace_object(record.cleanup_object)?;
        let old_source = match &source.remote {
            Some(node) => node.clone(),
            None => {
                return Err(JournalError::Corrupt);
            },
        };
        let target = match &victim.remote {
            Some(node) => node.id == remote.id,
            None => false,
        };
        if !source.remote_owned || !victim.remote_owned || !victim.unlinked || !target
            || old_source.id == remote.id || !source.scope.same(&victim.scope)
            || source.remote_sequence >= sequence || cleanup.remote_owned || !cleanup.unlinked {
            return Err(JournalError::Corrupt);
        }
        let mut tx = self.copy();
        victim.remote_owned = false;
        next_revision(&mut victim)?;
        tx.save_object(victim)?;
        let old_sequence: u64 = source.remote_sequence;
        source.remote = Some(remote.clone());
        source.remote_sequence = sequence;
        next_revision(&mut source)?;
        tx.save_object(source)?;
        let identity = cleanup.node.id.clone();
        cleanup.node = old_source.clone();
        cleanup.node.id = identity;
        cleanup.remote = Some(old_source);
        cleanup.remote_sequence = old_sequence;
        cleanup.remote_owned = true;
        next_revision(&mut cleanup)?;
        tx.save_object(cleanup)?;
        record.remote_applied = true;
        tx.replacements.put(record.id, record);
        *self = tx;
        Ok(true)
    }

    /// Marks the place of an operation complete or not.
    fn queue_complete(&mut self, id: Id, complete: bool)
        requires
            old(self)@.queue.contains_key(id),
        ensures
            final(self)@ == marked(old(self)@, id, complete),
    {
        if let Some(row) = self.queue.get(id) {
            let next = QueueRow { sequence: row.sequence, complete };
            self.queue.put(id, next);
        }
    }

    /// Stores an upload and what its state means for the queue and the namespace.
    pub fn save_upload(&mut self, record: UploadRecord) -> (result: Result<(), JournalError>)
        ensures
            stepped(upload_saved(old(self)@, record), result, old(self)@, final(self)@),
    {
        if !self.uploads.has(record.id) {
            return Err(JournalError::Missing);
        }
        if !self.queue.has(record.id) {
            return Err(JournalError::Corrupt);
        }
        let uploaded = record.state == UploadState::Uploaded;
        let mut tx = self.copy();
        tx.uploads.put(record.id, record.clone());
        tx.queue_complete(record.id, uploaded);
        if uploaded {
            if let Some(remote) = &record.remote {
                if !tx.confirm_replacement(record.id, record.sequence, remote)? {
                    tx.confirm(record.id, record.sequence, remote)?;
                }
            }
        }
        *self = tx;
        Ok(())
    }

    /// Stores a namespace change and what its state means for the queue and the
    /// namespace.
    pub fn save_mutation(&mut self, record: MutationRecord) -> (result: Result<(), JournalError>)
        ensures
            stepped(mutation_saved(old(self)@, record), result, old(self)@, final(self)@),
    {
        if !self.mutations.has(record.id) {
            return Err(JournalError::Missing);
        }
        if !self.queue.has(record.id) {
            return Err(JournalError::Corrupt);
        }
        let applied = record.state == MutationState::Applied;
        let mut tx = self.copy();
        tx.mutations.put(record.id, record.clone());
        tx.queue_complete(record.id, applied);
        if applied {
            if let Some(MutationReceipt::Upsert(remote)) = &record.receipt {
                tx.confirm(record.id, record.sequence, remote)?;
            }
        }
        *self = tx;
        Ok(())
    }
}

} // verus!
