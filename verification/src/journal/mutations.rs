//! Namespace changes share ordering and ownership with upload snapshots.
use crate::journal::generations::{
    answered, base_refusal, successor_refusal, waiting,
};
use crate::journal::listing::{earliest, lemma_head, listing, select};
use crate::journal::namespace::{bumped, next_revision, save_step};
use crate::journal::queue::{
    barred, barrier_refusal, bound, depended, enqueued, mutation_keys, mutation_resources, stepped,
};
use crate::journal::receipts::mutation_saved;
use crate::journal::records::{
    JournalError, JournalView, MutationRecord, MutationState, NamespaceObject, UploadJournal,
    WriteBase,
};
use crate::journal::tables::without_claims;
use crate::journal::uploads::{
    base_bound, count_one, counted, eligible, page_limit, page_size, retry_second, retry_time,
    shorter,
};
use crate::model::{
    intent_destination, is_removal, Id, MutationIntent, MutationReceipt, MutationRequest, NodeKind,
};
use crate::outside::{fresh_id, now_seconds};
use crate::text::{optional_view, same_optional};
use vstd::prelude::*;

verus! {

/// A namespace change that nobody has claimed yet.
pub open spec fn new_mutation(
    id: Id,
    request: MutationRequest,
    base: Option<WriteBase>,
    working_file: Option<Id>,
    local_ready: bool,
) -> MutationRecord {
    MutationRecord {
        id,
        sequence: 0,
        request,
        state: MutationState::Pending,
        attempt: None,
        receipt: None,
        retry_at: 0,
        failed_attempts: 0,
        base,
        working_file,
        local_ready,
    }
}

/// A namespace change that nobody has claimed yet.
pub fn pending_mutation(
    id: Id,
    request: MutationRequest,
    base: Option<WriteBase>,
    working_file: Option<Id>,
    local_ready: bool,
) -> (record: MutationRecord)
    ensures
        record == new_mutation(id, request, base, working_file, local_ready),
{
    MutationRecord {
        id,
        sequence: 0,
        request,
        state: MutationState::Pending,
        attempt: None,
        receipt: None,
        retry_at: 0,
        failed_attempts: 0,
        base,
        working_file,
        local_ready,
    }
}

/// A namespace change takes its place in the queue, with its claims, its
/// destination, its base and its prerequisites.
pub open spec fn mutation_queued(
    journal: JournalView,
    record: MutationRecord,
    prerequisites: Seq<Id>,
) -> Result<(JournalView, MutationRecord), JournalError> {
    match mutation_keys(record.request) {
        Err(error) => Err(error),
        Ok(keys) => match enqueued(journal, record.id, keys) {
            Err(error) => Err(error),
            Ok(queued) => {
                let sequence = queued.last_sequence;
                let placed = match intent_destination(record.request.intent) {
                    Some(pair) => bound(
                        queued,
                        record.id,
                        sequence,
                        record.request.scope@,
                        pair.0@,
                    ),
                    None => Ok(queued),
                };
                match placed {
                    Err(error) => Err(error),
                    Ok(placed) => match depended(placed, record.id, sequence, record.base) {
                        Err(error) => Err(error),
                        Ok(linked) => match barred(
                            linked,
                            record.id,
                            sequence,
                            record.request.scope@,
                            prerequisites,
                        ) {
                            Err(error) => Err(error),
                            Ok(ordered) => if ordered.mutations.contains_key(record.id) {
                                Err(JournalError::Storage)
                            } else {
                                let stored = MutationRecord { sequence, ..record };
                                Ok(
                                    (
                                        JournalView {
                                            mutations: ordered.mutations.insert(record.id, stored),
                                            ..ordered
                                        },
                                        stored,
                                    ),
                                )
                            },
                        },
                    },
                }
            },
        },
    }
}

/// A namespace change of this account becomes pending.
pub open spec fn mutation_enqueued(
    journal: JournalView,
    id: Id,
    request: MutationRequest,
    base: Option<WriteBase>,
    prerequisites: Seq<Id>,
    working_file: Option<Id>,
) -> Result<(JournalView, MutationRecord), JournalError> {
    if request.scope.account@ != journal.account {
        Err(JournalError::Account)
    } else {
        match barrier_refusal(journal, request.scope@, prerequisites) {
            Some(error) => Err(error),
            None => mutation_queued(
                journal,
                new_mutation(id, request, base, working_file, true),
                prerequisites,
            ),
        }
    }
}

/// A checked request becomes pending. `valid` is the verdict on it.
pub open spec fn request_enqueued(
    journal: JournalView,
    id: Id,
    request: MutationRequest,
    valid: bool,
) -> Result<(JournalView, MutationRecord), JournalError> {
    if !valid {
        Err(JournalError::Intent)
    } else {
        mutation_enqueued(journal, id, request, None, Seq::empty(), None)
    }
}

/// A request becomes pending behind an operation whose receipt supplies its source.
/// `valid` is the verdict on its preview.
pub open spec fn request_following(
    journal: JournalView,
    id: Id,
    predecessor: Id,
    prerequisites: Seq<Id>,
    request: MutationRequest,
    valid: bool,
) -> Result<(JournalView, MutationRecord), JournalError> {
    match base_refusal(journal, predecessor, request, valid) {
        Some(error) => Err(error),
        None => match successor_refusal(journal, predecessor) {
            Some(error) => Err(error),
            None => mutation_enqueued(
                journal,
                id,
                request,
                Some(WriteBase { predecessor, resolved: false }),
                prerequisites,
                None,
            ),
        },
    }
}

/// A namespace change may be claimed.
pub open spec fn mutation_claimable(
    journal: JournalView,
    now: u64,
    id: Id,
    record: MutationRecord,
) -> bool {
    (record.state == MutationState::Pending || record.state == MutationState::VerifyRequired)
        && record.local_ready && eligible(
        journal,
        now,
        id,
        record.sequence,
        record.base,
        record.retry_at,
    )
}

/// This namespace change is the next one.
pub open spec fn next_mutation(journal: JournalView, now: u64, id: Id) -> bool {
    !waiting(journal) && earliest(
        journal.mutations,
        |id: Id, record: MutationRecord| mutation_claimable(journal, now, id, record),
        id,
    )
}

/// The namespace change is handed to a worker: a pending one is applied, an
/// uncertain one is only looked up.
pub open spec fn mutation_taken(record: MutationRecord, attempt: Id) -> MutationRecord {
    MutationRecord {
        state: if record.state == MutationState::Pending {
            MutationState::Applying
        } else {
            MutationState::Verifying
        },
        attempt: Some(attempt),
        ..record
    }
}

/// What claiming the next namespace change does.
pub open spec fn mutation_claimed(
    journal: JournalView,
    now: u64,
    attempt: Id,
    result: Result<Option<MutationRecord>, JournalError>,
    after: JournalView,
) -> bool {
    if exists|id: Id| next_mutation(journal, now, id) {
        exists|id: Id| #[trigger]
            next_mutation(journal, now, id) && match (
                mutation_saved(journal, mutation_taken(journal.mutations[id], attempt)),
                result,
            ) {
                (Ok(state), Ok(Some(found))) => found == mutation_taken(
                    journal.mutations[id],
                    attempt,
                ) && after == state,
                (Err(wanted), Err(error)) => wanted == error && after == journal,
                _ => false,
            }
    } else {
        result == Ok::<Option<MutationRecord>, JournalError>(None) && after == journal
    }
}

/// The namespace change is held by this attempt.
pub open spec fn mutation_held(journal: JournalView, id: Id, attempt: Id) -> Result<
    MutationRecord,
    JournalError,
> {
    if !journal.mutations.contains_key(id) {
        Err(JournalError::Missing)
    } else {
        let record = journal.mutations[id];
        if (record.state == MutationState::Applying || record.state == MutationState::Verifying)
            && record.attempt == Some(attempt) {
            Ok(record)
        } else {
            Err(JournalError::Stale)
        }
    }
}

/// A text that says something.
pub open spec fn stated(text: Option<Seq<char>>) -> Option<Seq<char>> {
    match text {
        Some(value) => if value.len() > 0 {
            Some(value)
        } else {
            None
        },
        None => None,
    }
}

/// The state that a receipt leads to. A conditional response is bound to the
/// version that was requested; a later lookup of a relocated file may also hold
/// somebody else's content edit, whose tag is never adopted.
pub open spec fn reconciled(record: MutationRecord, receipt: MutationReceipt) -> MutationState {
    match (record.request.intent, receipt) {
        (MutationIntent::Relocate { before, .. }, MutationReceipt::Upsert(after)) => {
            if record.state != MutationState::Verifying || before.kind != NodeKind::File {
                MutationState::Applied
            } else if before.size != after.size {
                MutationState::Conflict
            } else if optional_view(before.etag) == optional_view(after.etag) {
                MutationState::Applied
            } else {
                match (
                    stated(optional_view(before.content_version)),
                    stated(optional_view(after.content_version)),
                ) {
                    (Some(old), Some(new)) => if old == new {
                        MutationState::Applied
                    } else {
                        MutationState::Conflict
                    },
                    _ => MutationState::NeedsReview,
                }
            }
        },
        _ => MutationState::Applied,
    }
}

/// The state that a receipt leads to.
pub fn reconciled_state(record: &MutationRecord, receipt: &MutationReceipt) -> (state: MutationState)
    ensures
        state == reconciled(*record, *receipt),
{
    let (before, after) = match (&record.request.intent, receipt) {
        (MutationIntent::Relocate { before, .. }, MutationReceipt::Upsert(after)) => (before, after),
        _ => {
            return MutationState::Applied;
        },
    };
    if record.state != MutationState::Verifying || before.kind != NodeKind::File {
        return MutationState::Applied;
    }
    if before.size != after.size {
        return MutationState::Conflict;
    }
    if same_optional(&before.etag, &after.etag) {
        return MutationState::Applied;
    }
    match (&before.content_version, &after.content_version) {
        (Some(old), Some(new)) => {
            if old.as_str().is_empty() || new.as_str().is_empty() {
                MutationState::NeedsReview
            } else if *old == *new {
                MutationState::Applied
            } else {
                MutationState::Conflict
            }
        },
        _ => MutationState::NeedsReview,
    }
}

/// A receipt ends an attempt. `accepted` says that the request allows it.
pub open spec fn mutation_acknowledged(
    journal: JournalView,
    id: Id,
    attempt: Id,
    receipt: MutationReceipt,
    accepted: bool,
) -> Result<(JournalView, MutationState), JournalError> {
    match mutation_held(journal, id, attempt) {
        Err(error) => Err(error),
        Ok(record) => if !accepted {
            Err(JournalError::Corrupt)
        } else {
            let state = reconciled(record, receipt);
            match mutation_saved(
                journal,
                MutationRecord { state, receipt: Some(receipt), attempt: None, ..record },
            ) {
                Err(error) => Err(error),
                Ok(after) => Ok((after, state)),
            }
        },
    }
}

/// An attempt ended without a receipt.
pub open spec fn mutation_deferred(
    journal: JournalView,
    now: u64,
    id: Id,
    attempt: Id,
    state: MutationState,
    delay: u64,
) -> Result<JournalView, JournalError> {
    if state != MutationState::VerifyRequired && state != MutationState::Failed && state
        != MutationState::Conflict && state != MutationState::NeedsReview {
        Err(JournalError::Stale)
    } else {
        match mutation_held(journal, id, attempt) {
            Err(error) => Err(error),
            Ok(record) => mutation_saved(
                journal,
                MutationRecord {
                    state,
                    attempt: None,
                    retry_at: retry_time(now, delay),
                    failed_attempts: counted(record.failed_attempts),
                    ..record
                },
            ),
        }
    }
}

/// A lookup proved that the change did not commit.
pub open spec fn mutation_retried(journal: JournalView, id: Id, attempt: Id) -> Result<
    JournalView,
    JournalError,
> {
    match mutation_held(journal, id, attempt) {
        Err(error) => Err(error),
        Ok(record) => if record.state != MutationState::Verifying {
            Err(JournalError::Stale)
        } else {
            mutation_saved(
                journal,
                MutationRecord {
                    state: MutationState::Pending,
                    attempt: None,
                    retry_at: 0,
                    ..record
                },
            )
        },
    }
}

/// A user's retry requests verification, never a blind replay. A conflict is not
/// retried at all.
pub open spec fn mutation_retry_requested(journal: JournalView, id: Id) -> Result<
    JournalView,
    JournalError,
> {
    if !journal.mutations.contains_key(id) {
        Err(JournalError::Missing)
    } else {
        let record = journal.mutations[id];
        if !base_bound(record.base) || (record.state != MutationState::Failed && record.state
            != MutationState::VerifyRequired && record.state != MutationState::NeedsReview) {
            Err(JournalError::Stale)
        } else {
            mutation_saved(
                journal,
                MutationRecord { state: MutationState::VerifyRequired, retry_at: 0, ..record },
            )
        }
    }
}

/// Nothing retries a change in this state.
pub open spec fn is_stuck(state: MutationState) -> bool {
    state == MutationState::Conflict || state == MutationState::Failed || state
        == MutationState::NeedsReview
}

/// The namespace changes that nothing retries.
pub open spec fn stuck_rows() -> spec_fn(Id, MutationRecord) -> bool {
    |id: Id, record: MutationRecord| is_stuck(record.state)
}

/// The namespace changes behind a place.
pub open spec fn mutations_behind(after: u64) -> spec_fn(Id, MutationRecord) -> bool {
    |id: Id, record: MutationRecord| record.sequence > after
}

/// The identities of removals among the first rows of a listing.
pub open spec fn removals(mutations: Map<Id, MutationRecord>, rows: Seq<(u64, Id)>) -> Seq<Id>
    decreases rows.len(),
{
    if rows.len() == 0 {
        Seq::empty()
    } else {
        let earlier = removals(mutations, rows.drop_last());
        if is_removal(mutations[rows.last().1].request.intent) {
            earlier.push(mutations[rows.last().1].id)
        } else {
            earlier
        }
    }
}

/// The object that an operation acts on.
pub open spec fn operation_object(journal: JournalView, id: Id) -> Option<NamespaceObject> {
    if journal.operations.contains_key(id) && journal.objects.contains_key(journal.operations[id]) {
        Some(journal.objects[journal.operations[id]])
    } else {
        None
    }
}

/// The journal without an operation and its claims.
pub open spec fn forgotten(journal: JournalView, id: Id) -> JournalView {
    JournalView {
        operations: journal.operations.remove(id),
        mutations: journal.mutations.remove(id),
        resources: without_claims(journal.resources, id),
        queue: journal.queue.remove(id),
        ..journal
    }
}

/// A removal that the provider never took is abandoned, and its object is shown
/// again as it is.
pub open spec fn removal_discarded(journal: JournalView, id: Id) -> Result<JournalView, JournalError> {
    if !journal.mutations.contains_key(id) {
        Err(JournalError::Missing)
    } else if !is_stuck(journal.mutations[id].state) {
        Err(JournalError::Stale)
    } else if !is_removal(journal.mutations[id].request.intent) {
        Err(JournalError::Intent)
    } else {
        match operation_object(journal, id) {
            None => Err(JournalError::Missing),
            Some(object) => if !object.unlinked || object.latest != Some(id) {
                Err(JournalError::Stale)
            } else {
                match bumped(NamespaceObject { unlinked: false, latest: None, ..object }) {
                    Err(error) => Err(error),
                    Ok(shown) => match save_step(journal, shown) {
                        Err(error) => Err(error),
                        Ok(state) => Ok(forgotten(state, id)),
                    },
                }
            },
        }
    }
}

impl UploadJournal {
    /// Gives a namespace change its place in the queue.
    pub fn queue_mutation(&mut self, record: MutationRecord, prerequisites: &Vec<Id>) -> (result:
        Result<MutationRecord, JournalError>)
        ensures
            answered(
                mutation_queued(old(self)@, record, prerequisites@),
                result,
                old(self)@,
                final(self)@,
            ),
    {
        let mut record = record;
        let keys = mutation_resources(&record.request)?;
        let mut tx = self.copy();
        tx.queue_insert(record.id, keys)?;
        let sequence: u64 = tx.last_sequence;
        if let Some((parent, _)) = record.request.intent.destination() {
            tx.bind_destination(record.id, sequence, &record.request.scope, parent.as_str())?;
        }
        tx.insert_dependency(record.id, sequence, record.base)?;
        tx.insert_prerequisites(record.id, sequence, &record.request.scope, prerequisites)?;
        if tx.mutations.has(record.id) {
            return Err(JournalError::Storage);
        }
        record.sequence = sequence;
        tx.mutations.put(record.id, record.clone());
        *self = tx;
        Ok(record)
    }

    /// Queues a namespace change of this account under a given identity.
    pub fn enqueue_mutation_transaction(
        &mut self,
        id: Id,
        request: MutationRequest,
        base: Option<WriteBase>,
        prerequisites: &Vec<Id>,
        working_file: Option<Id>,
    ) -> (result: Result<MutationRecord, JournalError>)
        ensures
            answered(
                mutation_enqueued(old(self)@, id, request, base, prerequisites@, working_file),
                result,
                old(self)@,
                final(self)@,
            ),
    {
        if request.scope.account != self.account {
            return Err(JournalError::Account);
        }
        self.validate_prerequisites(&request.scope, prerequisites)?;
        let record = pending_mutation(id, request, base, working_file, true);
        self.queue_mutation(record, prerequisites)
    }

    /// Queues a checked namespace change under a given identity.
    pub fn enqueue_request(&mut self, id: Id, request: MutationRequest, valid: bool) -> (result:
        Result<MutationRecord, JournalError>)
        ensures
            answered(
                request_enqueued(old(self)@, id, request, valid),
                result,
                old(self)@,
                final(self)@,
            ),
    {
        if !valid {
            return Err(JournalError::Intent);
        }
        let none: Vec<Id> = Vec::new();
        self.enqueue_mutation_transaction(id, request, None, &none, None)
    }

    /// Queues a checked namespace change. `valid` is the verdict on the request.
    pub fn enqueue_mutation(&mut self, request: MutationRequest, valid: bool) -> (result: Result<
        MutationRecord,
        JournalError,
    >)
        ensures
            exists|id: Id|
                answered(
                    #[trigger] request_enqueued(old(self)@, id, request, valid),
                    result,
                    old(self)@,
                    final(self)@,
                ),
    {
        self.enqueue_request(fresh_id(), request, valid)
    }

    /// Queues a namespace change under a given identity, behind an operation whose
    /// receipt supplies its source.
    pub fn enqueue_mutation_following(
        &mut self,
        id: Id,
        predecessor: Id,
        prerequisites: &Vec<Id>,
        request: MutationRequest,
        valid: bool,
    ) -> (result: Result<MutationRecord, JournalError>)
        ensures
            answered(
                request_following(old(self)@, id, predecessor, prerequisites@, request, valid),
                result,
                old(self)@,
                final(self)@,
            ),
    {
        self.validate_mutation_base(predecessor, &request, valid)?;
        self.ensure_successor_free(predecessor)?;
        self.enqueue_mutation_transaction(
            id,
            request,
            Some(WriteBase { predecessor, resolved: false }),
            prerequisites,
            None,
        )
    }

    /// Queues a namespace change behind one operation whose receipt supplies its
    /// source, and behind others that must be complete first. `valid` is the verdict
    /// on the preview of the request.
    pub fn enqueue_mutation_after_all(
        &mut self,
        predecessor: Id,
        prerequisites: &Vec<Id>,
        request: MutationRequest,
        valid: bool,
    ) -> (result: Result<MutationRecord, JournalError>)
        ensures
            exists|id: Id|
                answered(
                    #[trigger] request_following(
                        old(self)@,
                        id,
                        predecessor,
                        prerequisites@,
                        request,
                        valid,
                    ),
                    result,
                    old(self)@,
                    final(self)@,
                ),
    {
        self.enqueue_mutation_following(fresh_id(), predecessor, prerequisites, request, valid)
    }

    /// Queues a namespace change that follows the confirmed identity and version of
    /// an earlier save or namespace change.
    pub fn enqueue_mutation_after(
        &mut self,
        predecessor: Id,
        request: MutationRequest,
        valid: bool,
    ) -> (result: Result<MutationRecord, JournalError>)
        ensures
            exists|id: Id|
                answered(
                    #[trigger] request_following(
                        old(self)@,
                        id,
                        predecessor,
                        Seq::<Id>::empty(),
                        request,
                        valid,
                    ),
                    result,
                    old(self)@,
                    final(self)@,
                ),
    {
        let none: Vec<Id> = Vec::new();
        self.enqueue_mutation_after_all(predecessor, &none, request, valid)
    }

    /// The namespace changes behind a place, in order.
    pub fn list_mutations(&self, after: u64, limit: u32) -> (page: Vec<MutationRecord>)
        ensures
            exists|rows: Seq<(u64, Id)>| #[trigger]
                listing(self@.mutations, mutations_behind(after), rows) && page@.len() == shorter(
                    rows.len() as int,
                    page_limit(limit),
                ) && forall|i: int|
                    0 <= i < page@.len() ==> #[trigger] page@[i] == self@.mutations[rows[i].1],
    {
        let keep = |id: Id, record: &MutationRecord| -> (kept: bool)
            ensures
                kept == (record.sequence > after),
            { record.sequence > after };
        let ghost wanted = mutations_behind(after);
        let rows = select(&self.mutations, keep, Ghost(wanted));
        let size = page_size(limit);
        let mut page: Vec<MutationRecord> = Vec::new();
        let mut i: usize = 0;
        while i < rows.len() && i < size
            invariant
                i <= rows@.len(),
                i <= size,
                size == page_limit(limit),
                page@.len() == i,
                listing(self@.mutations, wanted, rows@),
                forall|j: int| 0 <= j < i ==> #[trigger] page@[j] == self@.mutations[rows@[j].1],
            decreases rows@.len() - i,
        {
            proof {
                assert(rows@.contains(rows@[i as int]));
            }
            if let Some(record) = self.mutations.get(rows[i].1) {
                page.push(record.clone());
            }
            i = i + 1;
        }
        page
    }

    /// The namespace changes that nothing retries, in order.
    fn stuck(&self) -> (rows: Vec<(u64, Id)>)
        ensures
            listing(self@.mutations, stuck_rows(), rows@),
    {
        let keep = |id: Id, record: &MutationRecord| -> (kept: bool)
            ensures
                kept == is_stuck(record.state),
            {
                record.state == MutationState::Conflict || record.state == MutationState::Failed
                    || record.state == MutationState::NeedsReview
            };
        select(&self.mutations, keep, Ghost(stuck_rows()))
    }

    /// How many namespace changes nothing retries. Each is a change the mount has
    /// already acted on that the provider never took.
    pub fn stuck_mutations(&self) -> (count: u64)
        ensures
            exists|rows: Seq<(u64, Id)>| #[trigger]
                listing(self@.mutations, stuck_rows(), rows) && count == rows.len(),
    {
        self.stuck().len() as u64
    }

    /// The identities of the removals among the oldest stuck changes. Removals are
    /// the only ones that `discard_stuck_removal` takes.
    pub fn stuck_removals(&self, limit: u32) -> (ids: Vec<Id>)
        ensures
            exists|rows: Seq<(u64, Id)>| #[trigger]
                listing(self@.mutations, stuck_rows(), rows) && ids@ == removals(
                    self@.mutations,
                    rows.subrange(0, shorter(rows.len() as int, page_limit(limit))),
                ),
    {
        let rows = self.stuck();
        let size = page_size(limit);
        let mut ids: Vec<Id> = Vec::new();
        let mut i: usize = 0;
        while i < rows.len() && i < size
            invariant
                i <= rows@.len(),
                i <= size,
                size == page_limit(limit),
                listing(self@.mutations, stuck_rows(), rows@),
                ids@ == removals(self@.mutations, rows@.subrange(0, i as int)),
            decreases rows@.len() - i,
        {
            proof {
                assert(rows@.contains(rows@[i as int]));
                let part = rows@.subrange(0, i + 1);
                assert(part.drop_last() =~= rows@.subrange(0, i as int));
            }
            if let Some(record) = self.mutations.get(rows[i].1) {
                if record.request.intent.removes() {
                    ids.push(record.id);
                }
            }
            i = i + 1;
        }
        ids
    }

    /// The object that an operation acts on.
    pub fn namespace_for_operation(&self, operation: Id) -> (found: Option<NamespaceObject>)
        ensures
            found == operation_object(self@, operation),
    {
        match self.operations.get(operation) {
            Some(id) => match self.objects.get(*id) {
                Some(object) => Some(object.clone()),
                None => None,
            },
            None => None,
        }
    }

    /// Claims the next namespace change at a given second under a given attempt.
    pub fn claim_mutation_at(&mut self, now: u64, attempt: Id) -> (result: Result<
        Option<MutationRecord>,
        JournalError,
    >)
        ensures
            mutation_claimed(old(self)@, now, attempt, result, final(self)@),
    {
        if self.is_waiting() {
            return Ok(None);
        }
        let keep = |id: Id, record: &MutationRecord| -> (kept: bool)
            ensures
                kept == mutation_claimable(self@, now, id, *record),
            {
                (record.state == MutationState::Pending || record.state
                    == MutationState::VerifyRequired) && record.local_ready && self.is_eligible(
                    now,
                    id,
                    record.sequence,
                    &record.base,
                    record.retry_at,
                )
            };
        let ghost wanted = |id: Id, record: MutationRecord|
            mutation_claimable(self@, now, id, record);
        let rows = select(&self.mutations, keep, Ghost(wanted));
        proof {
            lemma_head(self@.mutations, wanted, rows@);
        }
        if rows.len() == 0 {
            proof {
                assert forall|id: Id| !next_mutation(self@, now, id) by {
                    if next_mutation(self@, now, id) {
                        assert(self@.mutations.contains_key(id));
                    }
                }
            }
            return Ok(None);
        }
        let id = rows[0].1;
        proof {
            assert(next_mutation(self@, now, id));
        }
        let mut record = self.mutation(id)?;
        record.state = if record.state == MutationState::Pending {
            MutationState::Applying
        } else {
            MutationState::Verifying
        };
        record.attempt = Some(attempt);
        self.save_mutation(record.clone())?;
        Ok(Some(record))
    }

    /// Claims the next namespace change.
    pub fn claim_mutation(&mut self) -> (result: Result<Option<MutationRecord>, JournalError>)
        ensures
            exists|now: u64, attempt: Id| #[trigger]
                mutation_claimed(old(self)@, now, attempt, result, final(self)@),
    {
        let now = now_seconds();
        let attempt = fresh_id();
        self.claim_mutation_at(now, attempt)
    }

    /// The namespace change that an attempt holds.
    fn mutation_attempt(&self, id: Id, attempt: Id) -> (result: Result<MutationRecord, JournalError>)
        ensures
            result == mutation_held(self@, id, attempt),
    {
        let record = self.mutation(id)?;
        let current = match record.attempt {
            Some(token) => token == attempt,
            None => false,
        };
        if (record.state == MutationState::Applying || record.state == MutationState::Verifying)
            && current {
            Ok(record)
        } else {
            Err(JournalError::Stale)
        }
    }

    /// Ends an attempt with the provider's receipt. `accepted` says that the request
    /// allows the receipt.
    pub fn acknowledge_mutation(
        &mut self,
        id: Id,
        attempt: Id,
        receipt: MutationReceipt,
        accepted: bool,
    ) -> (result: Result<MutationState, JournalError>)
        ensures
            answered(
                mutation_acknowledged(old(self)@, id, attempt, receipt, accepted),
                result,
                old(self)@,
                final(self)@,
            ),
    {
        let mut record = self.mutation_attempt(id, attempt)?;
        if !accepted {
            return Err(JournalError::Corrupt);
        }
        let state = reconciled_state(&record, &receipt);
        record.state = state;
        record.receipt = Some(receipt);
        record.attempt = None;
        self.save_mutation(record)?;
        Ok(state)
    }

    /// Ends an attempt at a given second.
    pub fn defer_mutation_at(
        &mut self,
        now: u64,
        id: Id,
        attempt: Id,
        state: MutationState,
        delay: u64,
    ) -> (result: Result<(), JournalError>)
        ensures
            stepped(
                mutation_deferred(old(self)@, now, id, attempt, state, delay),
                result,
                old(self)@,
                final(self)@,
            ),
    {
        if state != MutationState::VerifyRequired && state != MutationState::Failed && state
            != MutationState::Conflict && state != MutationState::NeedsReview {
            return Err(JournalError::Stale);
        }
        let mut record = self.mutation_attempt(id, attempt)?;
        record.state = state;
        record.attempt = None;
        record.retry_at = retry_second(now, delay);
        record.failed_attempts = count_one(record.failed_attempts);
        self.save_mutation(record)
    }

    /// Ends an attempt; the change is not tried again before the delay, in seconds,
    /// has passed.
    pub fn defer_mutation(&mut self, id: Id, attempt: Id, state: MutationState, delay: u64) -> (result:
        Result<(), JournalError>)
        ensures
            exists|now: u64|
                stepped(
                    #[trigger] mutation_deferred(old(self)@, now, id, attempt, state, delay),
                    result,
                    old(self)@,
                    final(self)@,
                ),
    {
        self.defer_mutation_at(now_seconds(), id, attempt, state, delay)
    }

    /// Makes a change pending again that a lookup proved not to have committed.
    pub fn retry_uncommitted_mutation(&mut self, id: Id, attempt: Id) -> (result: Result<
        (),
        JournalError,
    >)
        ensures
            stepped(mutation_retried(old(self)@, id, attempt), result, old(self)@, final(self)@),
    {
        let mut record = self.mutation_attempt(id, attempt)?;
        if record.state != MutationState::Verifying {
            return Err(JournalError::Stale);
        }
        record.state = MutationState::Pending;
        record.attempt = None;
        record.retry_at = 0;
        self.save_mutation(record)
    }

    /// Abandons a removal that the provider never took. It discards rather than
    /// retries, takes removals only and takes terminal states only.
    pub fn discard_stuck_removal(&mut self, id: Id) -> (result: Result<(), JournalError>)
        ensures
            stepped(removal_discarded(old(self)@, id), result, old(self)@, final(self)@),
    {
        let record = self.mutation(id)?;
        if record.state != MutationState::Conflict && record.state != MutationState::Failed
            && record.state != MutationState::NeedsReview {
            return Err(JournalError::Stale);
        }
        if !record.request.intent.removes() {
            return Err(JournalError::Intent);
        }
        let mut object = match self.namespace_for_operation(id) {
            Some(object) => object,
            None => {
                return Err(JournalError::Missing);
            },
        };
        let current = match object.latest {
            Some(latest) => latest == id,
            None => false,
        };
        if !object.unlinked || !current {
            return Err(JournalError::Stale);
        }
        object.unlinked = false;
        object.latest = None;
        next_revision(&mut object)?;
        self.save_object(object)?;
        self.operations.take(id);
        self.mutations.take(id);
        self.resources.remove(id);
        self.queue.take(id);
        Ok(())
    }

    /// Requests verification of a change that failed or is uncertain.
    pub fn request_mutation_retry(&mut self, id: Id) -> (result: Result<(), JournalError>)
        ensures
            stepped(mutation_retry_requested(old(self)@, id), result, old(self)@, final(self)@),
    {
        let mut record = self.mutation(id)?;
        if let Some(base) = record.base {
            if !base.resolved {
                return Err(JournalError::Stale);
            }
        }
        if record.state != MutationState::Failed && record.state != MutationState::VerifyRequired
            && record.state != MutationState::NeedsReview {
            return Err(JournalError::Stale);
        }
        record.state = MutationState::VerifyRequired;
        record.retry_at = 0;
        self.save_mutation(record)
    }
}

} // verus!
