//! A removed directory entry does not end an open file's local lifetime.
use crate::journal::generations::{answered, based, form_to_check, to_check};
use crate::journal::listing::{listing, select};
use crate::journal::mutations::{
    mutation_queued, new_mutation, operation_object, pending_mutation,
};
use crate::journal::namespace::{bumped, next_revision, save_step};
use crate::journal::observation::same_id;
use crate::journal::queue::stepped;
use crate::journal::receipts::mutation_saved;
use crate::journal::records::{
    JournalError, JournalView, MutationRecord, MutationState, NamespaceObject, UploadJournal,
    WorkingFile,
};
use crate::journal::uploads::shorter;
use crate::model::{Id, MutationIntent, MutationRequest, NodeKind};
use crate::outside::fresh_id;
use vstd::prelude::*;

verus! {

/// The largest page of waiting readers.
pub const READER_PAGE: u32 = 32;

/// A file whose name is released and whose remote deletion is queued.
#[derive(Debug)]
pub struct UnlinkedFile {
    pub object: NamespaceObject,
    pub working: Option<WorkingFile>,
    pub mutation: MutationRecord,
}

/// The stream is sealed and presents exactly what its object does.
pub open spec fn in_step(file: WorkingFile, object: NamespaceObject) -> bool {
    !file.dirty && !file.unlinked && file.latest == object.latest && file.node@ == object.node@
}

/// The stream of an object, where it has one.
pub open spec fn stream_of(journal: JournalView, object: NamespaceObject) -> Result<
    Option<WorkingFile>,
    JournalError,
> {
    match object.working_file {
        Some(id) => if journal.working.contains_key(id) {
            Ok(Some(journal.working[id]))
        } else {
            Err(JournalError::Missing)
        },
        None => Ok(None),
    }
}

/// What an unlink starts from.
pub struct UnlinkPlan {
    pub object: NamespaceObject,
    pub working: Option<WorkingFile>,
    pub request: MutationRequest,
}

/// What an unlink starts from.
pub open spec fn unlink_plan(journal: JournalView, id: Id, revision: u64) -> Result<
    UnlinkPlan,
    JournalError,
> {
    if !journal.objects.contains_key(id) {
        Err(JournalError::Missing)
    } else {
        let object = journal.objects[id];
        if object.scope.account@ != journal.account {
            Err(JournalError::Account)
        } else if object.unlinked || object.follows_remote || object.revision != revision {
            Err(JournalError::Stale)
        } else if object.node.kind != NodeKind::File || object.node.target is Some {
            Err(JournalError::Intent)
        } else {
            match stream_of(journal, object) {
                Err(error) => Err(error),
                Ok(working) => if working is Some && !in_step(working->0, object) {
                    Err(JournalError::Stale)
                } else if object.latest is None && object.remote is None {
                    Err(JournalError::Stale)
                } else {
                    let before = if object.latest is Some {
                        object.node
                    } else {
                        object.remote->0
                    };
                    Ok(
                        UnlinkPlan {
                            object,
                            working,
                            request: MutationRequest {
                                scope: object.scope,
                                intent: MutationIntent::RemoveFile { before },
                            },
                        },
                    )
                },
            }
        }
    }
}

/// The stream of an unlinked file.
pub open spec fn released_stream(file: WorkingFile, operation: Id) -> Result<WorkingFile, JournalError> {
    if file.generation == u64::MAX {
        Err(JournalError::Quota)
    } else {
        Ok(
            WorkingFile {
                unlinked: true,
                latest: Some(operation),
                generation: (file.generation + 1) as u64,
                ..file
            },
        )
    }
}

/// A file's name is released and its conditional deletion is queued. With readers to
/// preserve, the deletion waits until they are local or gone.
pub open spec fn file_unlinked(
    journal: JournalView,
    operation: Id,
    id: Id,
    revision: u64,
    preserve: bool,
    valid: bool,
) -> Result<(JournalView, UnlinkedFile), JournalError> {
    match unlink_plan(journal, id, revision) {
        Err(error) => Err(error),
        Ok(plan) => match based(journal, plan.object.latest, plan.request, valid) {
            Err(error) => Err(error),
            Ok(base) => match bumped(
                NamespaceObject { unlinked: true, latest: Some(operation), ..plan.object },
            ) {
                Err(error) => Err(error),
                Ok(object) => {
                    let stream = match plan.working {
                        Some(file) => match released_stream(file, operation) {
                            Ok(file) => Ok(Some(file)),
                            Err(error) => Err(error),
                        },
                        None => Ok(None),
                    };
                    match stream {
                        Err(error) => Err(error),
                        Ok(working) => match mutation_queued(
                            journal,
                            new_mutation(
                                operation,
                                plan.request,
                                base,
                                plan.object.working_file,
                                !preserve,
                            ),
                            Seq::empty(),
                        ) {
                            Err(error) => Err(error),
                            Ok((queued, mutation)) => {
                                let kept = match working {
                                    Some(file) => JournalView {
                                        working: queued.working.insert(
                                            plan.object.working_file->0,
                                            file,
                                        ),
                                        ..queued
                                    },
                                    None => queued,
                                };
                                match save_step(kept, object) {
                                    Err(error) => Err(error),
                                    Ok(state) => Ok(
                                        (state, UnlinkedFile { object, working, mutation }),
                                    ),
                                }
                            },
                        },
                    }
                },
            },
        },
    }
}

/// The namespace changes behind a place that wait for readers.
pub open spec fn waiting_readers(after: u64) -> spec_fn(Id, MutationRecord) -> bool {
    |id: Id, record: MutationRecord| record.sequence > after && !record.local_ready
}

/// The readers of an unlinked file are local or gone. Receipts still gate the
/// deletion on their own.
pub open spec fn readers_released(journal: JournalView, id: Id) -> Result<JournalView, JournalError> {
    if !journal.mutations.contains_key(id) {
        Err(JournalError::Missing)
    } else {
        let record = journal.mutations[id];
        if record.local_ready {
            Ok(journal)
        } else {
            match operation_object(journal, id) {
                None => Err(JournalError::Corrupt),
                Some(object) => if !object.unlinked || object.latest != Some(id) || (record.state
                    != MutationState::Pending && record.state != MutationState::VerifyRequired)
                    || !(record.request.intent is RemoveFile) {
                    Err(JournalError::Corrupt)
                } else {
                    mutation_saved(journal, MutationRecord { local_ready: true, ..record })
                },
            }
        }
    }
}

/// The readers of some operations are released, one after the other, up to the first
/// that refuses.
pub open spec fn readers_released_all(journal: JournalView, rows: Seq<(u64, Id)>) -> (
    JournalView,
    Option<JournalError>,
)
    decreases rows.len(),
{
    if rows.len() == 0 {
        (journal, None)
    } else {
        match readers_released(journal, rows[0].1) {
            Err(error) => (journal, Some(error)),
            Ok(state) => readers_released_all(state, rows.drop_first()),
        }
    }
}

impl UploadJournal {
    /// The stream of an object, where it has one.
    pub fn object_stream(&self, object: &NamespaceObject) -> (result: Result<
        Option<WorkingFile>,
        JournalError,
    >)
        ensures
            result == stream_of(self@, *object),
    {
        match object.working_file {
            Some(id) => match self.working.get(id) {
                Some(file) => Ok(Some(file.clone())),
                None => Err(JournalError::Missing),
            },
            None => Ok(None),
        }
    }

    /// What an unlink starts from.
    fn plan_unlink(&self, id: Id, revision: u64) -> (result: Result<UnlinkPlan, JournalError>)
        ensures
            result == unlink_plan(self@, id, revision),
    {
        let object = self.namespace_object(id)?;
        if object.scope.account != self.account {
            return Err(JournalError::Account);
        }
        if object.unlinked || object.follows_remote || object.revision != revision {
            return Err(JournalError::Stale);
        }
        if object.node.kind != NodeKind::File || object.node.target.is_some() {
            return Err(JournalError::Intent);
        }
        let working = self.object_stream(&object)?;
        if let Some(file) = &working {
            if !is_in_step(file, &object) {
                return Err(JournalError::Stale);
            }
        }
        let before = if object.latest.is_some() {
            object.node.clone()
        } else {
            match &object.remote {
                Some(remote) => remote.clone(),
                None => {
                    return Err(JournalError::Stale);
                },
            }
        };
        let request = MutationRequest {
            scope: object.scope.clone(),
            intent: MutationIntent::RemoveFile { before },
        };
        Ok(UnlinkPlan { object, working, request })
    }

    /// The request on which an unlink needs a verdict.
    pub fn unlink_request(&self, id: Id, revision: u64) -> (result: Result<
        MutationRequest,
        JournalError,
    >)
        ensures
            match (unlink_plan(self@, id, revision), result) {
                (Ok(plan), Ok(form)) => to_check(plan.object.latest, plan.request, form),
                (Err(wanted), Err(error)) => wanted == error,
                _ => false,
            },
    {
        let plan = self.plan_unlink(id, revision)?;
        Ok(form_to_check(plan.object.latest, &plan.request))
    }

    /// Unlinks a file under a given operation.
    pub fn unlink_file_as(
        &mut self,
        operation: Id,
        id: Id,
        revision: u64,
        preserve: bool,
        valid: bool,
    ) -> (result: Result<UnlinkedFile, JournalError>)
        ensures
            answered(
                file_unlinked(old(self)@, operation, id, revision, preserve, valid),
                result,
                old(self)@,
                final(self)@,
            ),
    {
        let plan = self.plan_unlink(id, revision)?;
        let mut object = plan.object;
        let stream: Option<Id> = object.working_file;
        let base = self.base_for(object.latest, &plan.request, valid)?;
        object.unlinked = true;
        object.latest = Some(operation);
        next_revision(&mut object)?;
        let working = match plan.working {
            Some(file) => {
                let mut file = file;
                if file.generation == u64::MAX {
                    return Err(JournalError::Quota);
                }
                file.unlinked = true;
                file.latest = Some(operation);
                file.generation = file.generation + 1;
                Some(file)
            },
            None => None,
        };
        let record = pending_mutation(operation, plan.request, base, stream, !preserve);
        let none: Vec<Id> = Vec::new();
        let mut tx = self.copy();
        let mutation = tx.queue_mutation(record, &none)?;
        if let Some(file) = &working {
            if let Some(at) = stream {
                tx.working.put(at, file.clone());
            }
        }
        tx.save_object(object.clone())?;
        *self = tx;
        Ok(UnlinkedFile { object, working, mutation })
    }

    /// Releases a file's name and queues its conditional remote deletion. The caller
    /// seals dirty bytes first. Writes after this point never create an upload.
    /// `valid` is the verdict on `unlink_request`.
    pub fn unlink_namespace_file(&mut self, id: Id, revision: u64, preserve: bool, valid: bool) -> (result:
        Result<UnlinkedFile, JournalError>)
        ensures
            exists|operation: Id|
                answered(
                    #[trigger] file_unlinked(old(self)@, operation, id, revision, preserve, valid),
                    result,
                    old(self)@,
                    final(self)@,
                ),
    {
        self.unlink_file_as(fresh_id(), id, revision, preserve, valid)
    }

    /// The namespace changes behind a place that wait for readers, in order.
    fn waiting_unlinks(&self, after: u64) -> (rows: Vec<(u64, Id)>)
        ensures
            listing(self@.mutations, waiting_readers(after), rows@),
    {
        let keep = |id: Id, record: &MutationRecord| -> (kept: bool)
            ensures
                kept == (record.sequence > after && !record.local_ready),
            { record.sequence > after && !record.local_ready };
        select(&self.mutations, keep, Ghost(waiting_readers(after)))
    }

    /// A page of the namespace changes that wait for readers.
    pub fn unlinked_readers(&self, after: u64, limit: u32) -> (page: Vec<MutationRecord>)
        ensures
            exists|rows: Seq<(u64, Id)>| #[trigger]
                listing(self@.mutations, waiting_readers(after), rows) && page@.len() == shorter(
                    rows.len() as int,
                    shorter(limit as int, READER_PAGE as int),
                ) && forall|i: int|
                    0 <= i < page@.len() ==> #[trigger] page@[i] == self@.mutations[rows[i].1],
    {
        let rows = self.waiting_unlinks(after);
        let size: usize = if limit < READER_PAGE {
            limit as usize
        } else {
            READER_PAGE as usize
        };
        let mut page: Vec<MutationRecord> = Vec::new();
        let mut i: usize = 0;
        while i < rows.len() && i < size
            invariant
                i <= rows@.len(),
                i <= size,
                size == shorter(limit as int, READER_PAGE as int),
                page@.len() == i,
                listing(self@.mutations, waiting_readers(after), rows@),
                forall|j: int| 0 <= j < i ==> #[trigger] page@[j] == self@.mutations[rows@[j].1],
            decreases rows@.len() - i,
        {
            proof {
                assert(rows@.contains(rows@[i as int]));
            }
            if let Some(record) = self.mutations.get(rows[i].1) {
                page.push(record.clone());
            }
            i = i + 1;
        }
        page
    }

    /// Lets a deletion go on whose readers are local or gone.
    pub fn release_unlinked_readers(&mut self, id: Id) -> (result: Result<(), JournalError>)
        ensures
            stepped(readers_released(old(self)@, id), result, old(self)@, final(self)@),
    {
        let mut record = self.mutation(id)?;
        if record.local_ready {
            return Ok(());
        }
        let object = match self.namespace_for_operation(id) {
            Some(object) => object,
            None => {
                return Err(JournalError::Corrupt);
            },
        };
        let removes = match &record.request.intent {
            MutationIntent::RemoveFile { .. } => true,
            _ => false,
        };
        if !object.unlinked || !same_id(object.latest, Some(id)) || (record.state
            != MutationState::Pending && record.state != MutationState::VerifyRequired)
            || !removes {
            return Err(JournalError::Corrupt);
        }
        record.local_ready = true;
        self.save_mutation(record)
    }

    /// Releases every reader barrier after a restart. Exclusive ownership proves that
    /// no earlier filesystem is alive; pending bytes and lineage remain.
    pub fn recover_unlinked_readers(&mut self) -> (result: Result<(), JournalError>)
        ensures
            exists|rows: Seq<(u64, Id)>| #[trigger]
                listing(old(self)@.mutations, waiting_readers(0), rows) && {
                    let end = readers_released_all(old(self)@, rows);
                    final(self)@ == end.0 && result == (match end.1 {
                        Some(error) => Err::<(), JournalError>(error),
                        None => Ok(()),
                    })
                },
    {
        let rows = self.waiting_unlinks(0);
        let ghost start = self@;
        let mut i: usize = 0;
        proof {
            assert(rows@.subrange(0, rows@.len() as int) =~= rows@);
        }
        while i < rows.len()
            invariant
                i <= rows@.len(),
                start == old(self)@,
                listing(start.mutations, waiting_readers(0), rows@),
                readers_released_all(start, rows@) == readers_released_all(
                    self@,
                    rows@.subrange(i as int, rows@.len() as int),
                ),
            decreases rows@.len() - i,
        {
            proof {
                let rest = rows@.subrange(i as int, rows@.len() as int);
                assert(rest[0] == rows@[i as int]);
                assert(rest.drop_first() =~= rows@.subrange(i + 1, rows@.len() as int));
            }
            self.release_unlinked_readers(rows[i].1)?;
            i = i + 1;
        }
        Ok(())
    }
}

/// Whether the stream is sealed and presents exactly what its object does.
pub fn is_in_step(file: &WorkingFile, object: &NamespaceObject) -> (same: bool)
    ensures
        same == in_step(*file, *object),
{
    !file.dirty && !file.unlinked && same_id(file.latest, object.latest) && file.node.same(
        &object.node,
    )
}

} // verus!
