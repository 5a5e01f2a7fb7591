//! A later local edit follows a confirmed receipt, including intervening renames.
use crate::journal::listing::{chosen, earlier, lemma_head, listing, select, Sequenced};
use crate::journal::queue::{
    claim_all, claimed, mutation_keys, mutation_resources, stepped, upload_keys, upload_resources,
};
use crate::journal::receipts::{mutation_saved, upload_saved, upserted};
use crate::journal::records::{
    JournalError, JournalView, MutationRecord, MutationState, UploadJournal, UploadRecord,
    UploadState, WriteBase,
};
use crate::model::{
    copy_node, intent_before, Id, MutationIntent, MutationReceipt, MutationRequest, Node, NodeKind,
    Scope, ScopeView, UploadIntent,
};
use vstd::prelude::*;

verus! {

/// Stands in for an entity tag that a receipt will supply.
pub const PENDING_TAG: &'static str = "cirrove-pending-receipt";

/// An operation that waits only for its binding.
#[derive(Clone, Copy, Debug, PartialEq, Eq, Structural)]
pub enum Ready {
    Upload(Id),
    Mutation(Id),
}

/// An operation succeeded with the expected state and answer, or refused with the
/// expected error and changed nothing.
pub open spec fn answered<T>(
    expected: Result<(JournalView, T), JournalError>,
    result: Result<T, JournalError>,
    before: JournalView,
    after: JournalView,
) -> bool {
    match (expected, result) {
        (Ok((state, wanted)), Ok(value)) => after == state && value == wanted,
        (Err(wanted), Err(error)) => wanted == error && after == before,
        _ => false,
    }
}

/// A queued operation of either kind.
#[derive(Debug)]
pub enum Operation {
    Upload(UploadRecord),
    Mutation(MutationRecord),
}

/// The operation with this identity.
pub open spec fn find(journal: JournalView, id: Id) -> Option<Operation> {
    if journal.uploads.contains_key(id) {
        Some(Operation::Upload(journal.uploads[id]))
    } else if journal.mutations.contains_key(id) {
        Some(Operation::Mutation(journal.mutations[id]))
    } else {
        None
    }
}

/// The scope of an operation.
pub open spec fn scope_of(operation: Operation) -> ScopeView {
    match operation {
        Operation::Upload(record) => record.scope@,
        Operation::Mutation(record) => record.request.scope@,
    }
}

/// The place of an operation.
pub open spec fn place_of(operation: Operation) -> u64 {
    match operation {
        Operation::Upload(record) => record.sequence,
        Operation::Mutation(record) => record.sequence,
    }
}

/// What kind of node an operation leaves behind, where it leaves one.
pub open spec fn kind_of(operation: Operation) -> Option<NodeKind> {
    match operation {
        Operation::Upload(_) => Some(NodeKind::File),
        Operation::Mutation(record) => match record.request.intent {
            MutationIntent::CreateFolder { .. } => Some(NodeKind::Folder),
            MutationIntent::Relocate { before, .. } => Some(before.kind),
            _ => None,
        },
    }
}

/// The node that a completed operation's receipt confirms.
pub open spec fn confirmed_of(operation: Operation) -> Option<Node> {
    match operation {
        Operation::Upload(record) => if record.state == UploadState::Uploaded {
            record.remote
        } else {
            None
        },
        Operation::Mutation(record) => if record.state == MutationState::Applied {
            upserted(record.receipt)
        } else {
            None
        },
    }
}

impl Operation {
    /// The scope of the operation.
    pub fn scope(&self) -> (scope: &Scope)
        ensures
            scope@ == scope_of(*self),
    {
        match self {
            Operation::Upload(record) => &record.scope,
            Operation::Mutation(record) => &record.request.scope,
        }
    }

    /// The place of the operation.
    pub fn sequence(&self) -> (sequence: u64)
        ensures
            sequence == place_of(*self),
    {
        match self {
            Operation::Upload(record) => record.sequence,
            Operation::Mutation(record) => record.sequence,
        }
    }

    /// What kind of node the operation leaves behind.
    pub fn kind(&self) -> (kind: Option<NodeKind>)
        ensures
            kind == kind_of(*self),
    {
        match self {
            Operation::Upload(_) => Some(NodeKind::File),
            Operation::Mutation(record) => match &record.request.intent {
                MutationIntent::CreateFolder { .. } => Some(NodeKind::Folder),
                MutationIntent::Relocate { before, .. } => Some(before.kind),
                _ => None,
            },
        }
    }

    /// The node that a completed operation's receipt confirms. Only an accepted
    /// receipt completes an operation.
    pub fn confirmed_node(&self) -> (node: Option<Node>)
        ensures
            node == confirmed_of(*self),
    {
        match self {
            Operation::Upload(record) => {
                if record.state == UploadState::Uploaded {
                    copy_node(&record.remote)
                } else {
                    None
                }
            },
            Operation::Mutation(record) => {
                if record.state == MutationState::Applied {
                    match &record.receipt {
                        Some(MutationReceipt::Upsert(node)) => Some(node.clone()),
                        _ => None,
                    }
                } else {
                    None
                }
            },
        }
    }
}

/// Why an operation cannot get a content successor.
pub open spec fn successor_refusal(journal: JournalView, predecessor: Id) -> Option<JournalError> {
    if find(journal, predecessor) is None {
        Some(JournalError::Missing)
    } else if journal.successors.contains_key(predecessor) {
        Some(JournalError::Stale)
    } else {
        None
    }
}

/// Why no upload can follow an operation.
pub open spec fn follow_refusal(journal: JournalView, predecessor: Id) -> Option<JournalError> {
    match find(journal, predecessor) {
        None => Some(JournalError::Missing),
        Some(Operation::Upload(_)) => None,
        Some(Operation::Mutation(record)) => match record.request.intent {
            MutationIntent::Relocate { before, .. } => if before.kind == NodeKind::File {
                None
            } else {
                Some(JournalError::Intent)
            },
            _ => Some(JournalError::Intent),
        },
    }
}

/// The plan of an upload that follows an operation. Eligibility always requires
/// binding to the preceding receipt before any provider call.
pub open spec fn follows(
    journal: JournalView,
    predecessor: Id,
    scope: Scope,
    intent: UploadIntent,
) -> bool {
    match find(journal, predecessor) {
        Some(Operation::Upload(record)) => scope == record.scope && intent == record.intent,
        Some(Operation::Mutation(record)) => match (record.request.intent, intent) {
            (
                MutationIntent::Relocate { before, .. },
                UploadIntent::Replace { item, expected_etag },
            ) => scope == record.request.scope && item == before.id && expected_etag@ == (
            match before.etag {
                Some(tag) => tag@,
                None => PENDING_TAG@,
            }),
            _ => false,
        },
        None => false,
    }
}

/// Why a namespace change cannot follow an operation. `valid` is the verdict on
/// the preview of the request.
pub open spec fn base_refusal(
    journal: JournalView,
    predecessor: Id,
    request: MutationRequest,
    valid: bool,
) -> Option<JournalError> {
    match find(journal, predecessor) {
        None => Some(JournalError::Missing),
        Some(previous) => if scope_of(previous) != request.scope@ || request.scope.account@
            != journal.account {
            Some(JournalError::Account)
        } else {
            match intent_before(request.intent) {
                None => Some(JournalError::Intent),
                Some(before) => if kind_of(previous) != Some(before.kind) || before.target is Some
                    || !valid {
                    Some(JournalError::Intent)
                } else {
                    None
                },
            }
        },
    }
}

/// What a change of an object follows: the receipt of the object's latest operation,
/// where there is one. `valid` is the verdict on the request, or on its preview
/// where a receipt is followed.
pub open spec fn based(
    journal: JournalView,
    latest: Option<Id>,
    request: MutationRequest,
    valid: bool,
) -> Result<Option<WriteBase>, JournalError> {
    match latest {
        Some(predecessor) => match base_refusal(journal, predecessor, request, valid) {
            Some(error) => Err(error),
            None => match successor_refusal(journal, predecessor) {
                Some(error) => Err(error),
                None => Ok(Some(WriteBase { predecessor, resolved: false })),
            },
        },
        None => if valid {
            Ok(None)
        } else {
            Err(JournalError::Intent)
        },
    }
}

/// The form of a request that is to be checked.
pub open spec fn to_check(latest: Option<Id>, request: MutationRequest, form: MutationRequest) -> bool {
    match latest {
        Some(_) => previewed(request, form),
        None => form == request,
    }
}

/// The form of a request that is to be checked: its preview, where it follows a
/// receipt.
pub fn form_to_check(latest: Option<Id>, request: &MutationRequest) -> (form: MutationRequest)
    ensures
        to_check(latest, *request, form),
{
    match latest {
        Some(_) => preview(request),
        None => request.clone(),
    }
}

/// The node with a tag that a receipt will supply.
pub open spec fn previewed_node(before: Node, preview: Node) -> bool {
    preview.etag is Some && preview.etag->0@ == PENDING_TAG@ && before == (Node {
        etag: before.etag,
        ..preview
    })
}

/// The request as it is checked before its source has a receipt: a newly created
/// local file has no entity tag yet.
pub open spec fn previewed(request: MutationRequest, preview: MutationRequest) -> bool {
    &&& preview.scope == request.scope
    &&& match (request.intent, preview.intent) {
        (
            MutationIntent::Relocate { before, parent, name },
            MutationIntent::Relocate { before: source, parent: to, name: called },
        ) => previewed_node(before, source) && parent == to && name == called,
        (
            MutationIntent::RemoveFile { before },
            MutationIntent::RemoveFile { before: source },
        ) => previewed_node(before, source),
        (
            MutationIntent::RemoveFolder { before },
            MutationIntent::RemoveFolder { before: source },
        ) => previewed_node(before, source),
        (MutationIntent::CreateFolder { .. }, _) => preview == request,
        _ => false,
    }
}

/// A copy of a node whose entity tag stands for a later receipt.
fn pending_node(node: &Node) -> (pending: Node)
    ensures
        previewed_node(*node, pending),
{
    let mut pending = node.clone();
    pending.etag = Some(PENDING_TAG.to_string());
    pending
}

/// The request as it is checked before its source has a receipt.
pub fn preview(request: &MutationRequest) -> (preview: MutationRequest)
    ensures
        previewed(*request, preview),
{
    let intent = match &request.intent {
        MutationIntent::CreateFolder { parent, name } => MutationIntent::CreateFolder {
            parent: parent.clone(),
            name: name.clone(),
        },
        MutationIntent::Relocate { before, parent, name } => MutationIntent::Relocate {
            before: pending_node(before),
            parent: parent.clone(),
            name: name.clone(),
        },
        MutationIntent::RemoveFile { before } => MutationIntent::RemoveFile {
            before: pending_node(before),
        },
        MutationIntent::RemoveFolder { before } => MutationIntent::RemoveFolder {
            before: pending_node(before),
        },
    };
    MutationRequest { scope: request.scope.clone(), intent }
}

/// The confirmed node that a base supplies. A base of another scope or of a later
/// place supplies nothing, and neither does a link.
pub open spec fn base_node(
    journal: JournalView,
    base: WriteBase,
    scope: ScopeView,
    sequence: u64,
) -> Result<Option<Node>, JournalError> {
    match find(journal, base.predecessor) {
        None => Err(JournalError::Missing),
        Some(previous) => if scope_of(previous) != scope || place_of(previous) >= sequence {
            Ok(None)
        } else {
            match confirmed_of(previous) {
                Some(node) => if node.target is None {
                    Ok(Some(node))
                } else {
                    Ok(None)
                },
                None => Ok(None),
            }
        },
    }
}

/// The intent that an upload gets from the receipt of its base.
pub open spec fn planned_intent(journal: JournalView, id: Id) -> Result<
    Option<UploadIntent>,
    JournalError,
> {
    if !journal.uploads.contains_key(id) {
        Err(JournalError::Missing)
    } else {
        let record = journal.uploads[id];
        match record.base {
            None => Err(JournalError::Corrupt),
            Some(base) => match base_node(journal, base, record.scope@, record.sequence) {
                Err(error) => Err(error),
                Ok(None) => Ok(None),
                Ok(Some(node)) => match node.etag {
                    Some(tag) => if node.kind == NodeKind::File {
                        Ok(Some(UploadIntent::Replace { item: node.id, expected_etag: tag }))
                    } else {
                        Ok(None)
                    },
                    None => Ok(None),
                },
            },
        }
    }
}

/// The intent with another source.
pub open spec fn with_source(intent: MutationIntent, node: Node) -> MutationIntent {
    match intent {
        MutationIntent::CreateFolder { .. } => intent,
        MutationIntent::Relocate { parent, name, .. } => MutationIntent::Relocate {
            before: node,
            parent,
            name,
        },
        MutationIntent::RemoveFile { .. } => MutationIntent::RemoveFile { before: node },
        MutationIntent::RemoveFolder { .. } => MutationIntent::RemoveFolder { before: node },
    }
}

/// The request that a namespace change gets from the receipt of its base.
pub open spec fn planned_request(journal: JournalView, id: Id) -> Result<
    Option<MutationRequest>,
    JournalError,
> {
    if !journal.mutations.contains_key(id) {
        Err(JournalError::Missing)
    } else {
        let record = journal.mutations[id];
        match record.base {
            None => Err(JournalError::Corrupt),
            Some(base) => match base_node(journal, base, record.request.scope@, record.sequence) {
                Err(error) => Err(error),
                Ok(None) => Ok(None),
                Ok(Some(node)) => match intent_before(record.request.intent) {
                    Some(before) => if before.kind == node.kind {
                        Ok(
                            Some(
                                MutationRequest {
                                    intent: with_source(record.request.intent, node),
                                    ..record.request
                                },
                            ),
                        )
                    } else {
                        Ok(None)
                    },
                    None => Ok(None),
                },
            },
        }
    }
}

/// An upload is bound to the receipt of its base, or fails where the receipt
/// supplies no usable one. `valid` is the verdict on the planned intent.
pub open spec fn upload_resolved(journal: JournalView, id: Id, valid: bool) -> Result<
    JournalView,
    JournalError,
> {
    match planned_intent(journal, id) {
        Err(error) => Err(error),
        Ok(plan) => {
            let record = journal.uploads[id];
            if plan is None || !valid {
                upload_saved(journal, UploadRecord { state: UploadState::Failed, ..record })
            } else {
                Ok(
                    JournalView {
                        uploads: journal.uploads.insert(
                            id,
                            UploadRecord {
                                intent: plan->0,
                                base: Some(WriteBase { resolved: true, ..record.base->0 }),
                                ..record
                            },
                        ),
                        resources: journal.resources.union(
                            claimed(id, upload_keys(record.scope@, plan->0)),
                        ),
                        ..journal
                    },
                )
            }
        },
    }
}

/// A namespace change is bound to the receipt of its base, or fails where the
/// receipt supplies no usable source. `valid` is the verdict on the planned
/// request.
pub open spec fn mutation_resolved(journal: JournalView, id: Id, valid: bool) -> Result<
    JournalView,
    JournalError,
> {
    match planned_request(journal, id) {
        Err(error) => Err(error),
        Ok(plan) => {
            let record = journal.mutations[id];
            match plan {
                None => mutation_saved(
                    journal,
                    MutationRecord { state: MutationState::Failed, ..record },
                ),
                Some(request) => if !valid {
                    mutation_saved(
                        journal,
                        MutationRecord { state: MutationState::Failed, request, ..record },
                    )
                } else {
                    match mutation_keys(request) {
                        Err(error) => Err(error),
                        Ok(keys) => Ok(
                            JournalView {
                                mutations: journal.mutations.insert(
                                    id,
                                    MutationRecord {
                                        request,
                                        base: Some(WriteBase { resolved: true, ..record.base->0 }),
                                        ..record
                                    },
                                ),
                                resources: journal.resources.union(claimed(id, keys)),
                                ..journal
                            },
                        ),
                    }
                },
            }
        },
    }
}

/// The base of an operation is complete and not yet bound.
pub open spec fn base_ready(journal: JournalView, base: Option<WriteBase>) -> bool {
    match base {
        Some(base) => !base.resolved && journal.queue.contains_key(base.predecessor)
            && journal.queue[base.predecessor].complete,
        None => false,
    }
}

/// An upload waits only for its binding.
pub open spec fn upload_ready(journal: JournalView, record: UploadRecord) -> bool {
    (record.state == UploadState::Pending || record.state == UploadState::Preparing) && base_ready(
        journal,
        record.base,
    )
}

/// A namespace change waits only for its binding.
pub open spec fn mutation_ready(journal: JournalView, record: MutationRecord) -> bool {
    record.state == MutationState::Pending && base_ready(journal, record.base)
}

/// Some operation waits only for its binding. Until it is bound it may come to
/// claim resources that a younger operation would take.
pub open spec fn waiting(journal: JournalView) -> bool {
    (exists|id: Id| #[trigger]
        journal.uploads.contains_key(id) && upload_ready(journal, journal.uploads[id])) || (exists|
        id: Id,
    | #[trigger]
        journal.mutations.contains_key(id) && mutation_ready(journal, journal.mutations[id]))
}

/// How many ready operations are bound to their receipts in one pass.
pub const RESOLUTION_BATCH: usize = 256;

/// The place of an operation in the queue.
pub open spec fn ready_place(journal: JournalView, ready: Ready) -> u64 {
    match ready {
        Ready::Upload(id) => journal.uploads[id].sequence,
        Ready::Mutation(id) => journal.mutations[id].sequence,
    }
}

/// The operation waits only for its binding.
pub open spec fn is_ready(journal: JournalView, ready: Ready) -> bool {
    match ready {
        Ready::Upload(id) => journal.uploads.contains_key(id) && upload_ready(
            journal,
            journal.uploads[id],
        ),
        Ready::Mutation(id) => journal.mutations.contains_key(id) && mutation_ready(
            journal,
            journal.mutations[id],
        ),
    }
}

/// The operations are the earliest that wait only for their bindings, each once and in
/// the order of their places: all of them, or as many as one batch has.
pub open spec fn ready_batch_of(journal: JournalView, batch: Seq<Ready>) -> bool {
    &&& batch.len() <= RESOLUTION_BATCH
    &&& batch.no_duplicates()
    &&& forall|i: int| 0 <= i < batch.len() ==> is_ready(journal, #[trigger] batch[i])
    &&& forall|i: int, j: int|
        0 <= i <= j < batch.len() ==> ready_place(journal, #[trigger] batch[i]) <= ready_place(
            journal,
            #[trigger] batch[j],
        )
    &&& forall|other: Ready| #[trigger]
        is_ready(journal, other) && !batch.contains(other) ==> batch.len() == RESOLUTION_BATCH
            && forall|i: int|
            0 <= i < batch.len() ==> ready_place(journal, #[trigger] batch[i]) <= ready_place(
                journal,
                other,
            )
}

/// A row stands for an operation of the table that no row before it stands for.
proof fn lemma_apart<T: Sequenced>(
    table: Map<Id, T>,
    wanted: spec_fn(Id, T) -> bool,
    rows: Seq<(u64, Id)>,
    at: int,
)
    requires
        listing(table, wanted, rows),
        0 <= at < rows.len(),
    ensures
        chosen(table, wanted, rows[at]),
        forall|a: int| 0 <= a < at ==> (#[trigger] rows[a]).1 != rows[at].1,
        at + 1 < rows.len() ==> rows[at].0 <= rows[at + 1].0,
{
    assert(rows.contains(rows[at]));
    assert forall|a: int| 0 <= a < at implies (#[trigger] rows[a]).1 != rows[at].1 by {
        assert(rows.contains(rows[a]));
        assert(chosen(table, wanted, rows[a]));
        assert(earlier(rows[a], rows[at]));
    }
    if at + 1 < rows.len() {
        assert(earlier(rows[at], rows[at + 1]));
    }
}

/// What a list holds it still holds with one more at its end.
proof fn lemma_kept(list: Seq<Ready>, added: Ready, held: Ready)
    requires
        list.contains(held) || held == added,
    ensures
        list.push(added).contains(held),
{
    if list.contains(held) {
        let k = choose|k: int| 0 <= k < list.len() && list[k] == held;
        assert(list.push(added)[k] == held);
    } else {
        assert(list.push(added)[list.len() as int] == held);
    }
}

impl UploadJournal {
    /// The upload with this identity.
    pub fn get(&self, id: Id) -> (result: Result<UploadRecord, JournalError>)
        ensures
            match result {
                Ok(record) => self@.uploads.contains_key(id) && record == self@.uploads[id],
                Err(error) => error == JournalError::Missing && !self@.uploads.contains_key(id),
            },
    {
        match self.uploads.get(id) {
            Some(record) => Ok(record.clone()),
            None => Err(JournalError::Missing),
        }
    }

    /// The namespace change with this identity.
    pub fn mutation(&self, id: Id) -> (result: Result<MutationRecord, JournalError>)
        ensures
            match result {
                Ok(record) => self@.mutations.contains_key(id) && record == self@.mutations[id],
                Err(error) => error == JournalError::Missing && !self@.mutations.contains_key(id),
            },
    {
        match self.mutations.get(id) {
            Some(record) => Ok(record.clone()),
            None => Err(JournalError::Missing),
        }
    }

    /// The operation with this identity.
    pub fn operation(&self, id: Id) -> (result: Result<Operation, JournalError>)
        ensures
            match result {
                Ok(operation) => find(self@, id) == Some(operation),
                Err(error) => error == JournalError::Missing && find(self@, id) is None,
            },
    {
        if let Some(record) = self.uploads.get(id) {
            return Ok(Operation::Upload(record.clone()));
        }
        match self.mutations.get(id) {
            Some(record) => Ok(Operation::Mutation(record.clone())),
            None => Err(JournalError::Missing),
        }
    }

    /// Refuses a second content successor of one operation.
    pub fn ensure_successor_free(&self, predecessor: Id) -> (result: Result<(), JournalError>)
        ensures
            match result {
                Ok(()) => successor_refusal(self@, predecessor) is None,
                Err(error) => successor_refusal(self@, predecessor) == Some(error),
            },
    {
        self.operation(predecessor)?;
        if self.successors.has(predecessor) {
            Err(JournalError::Stale)
        } else {
            Ok(())
        }
    }

    /// The plan of an upload that follows an operation.
    pub fn upload_intent_after(&self, predecessor: Id) -> (result: Result<
        (Scope, UploadIntent),
        JournalError,
    >)
        ensures
            match result {
                Ok(plan) => follow_refusal(self@, predecessor) is None && follows(
                    self@,
                    predecessor,
                    plan.0,
                    plan.1,
                ),
                Err(error) => follow_refusal(self@, predecessor) == Some(error),
            },
    {
        match self.operation(predecessor)? {
            Operation::Upload(record) => Ok((record.scope, record.intent)),
            Operation::Mutation(record) => match record.request.intent {
                MutationIntent::Relocate { before, .. } => {
                    if before.kind != NodeKind::File {
                        return Err(JournalError::Intent);
                    }
                    let expected_etag = match before.etag {
                        Some(tag) => tag,
                        None => PENDING_TAG.to_string(),
                    };
                    Ok(
                        (record.request.scope, UploadIntent::Replace { item: before.id, expected_etag }),
                    )
                },
                _ => Err(JournalError::Intent),
            },
        }
    }

    /// Refuses a namespace change that cannot follow an operation. `valid` is the
    /// verdict on the preview of the request.
    pub fn validate_mutation_base(
        &self,
        predecessor: Id,
        request: &MutationRequest,
        valid: bool,
    ) -> (result: Result<(), JournalError>)
        ensures
            match result {
                Ok(()) => base_refusal(self@, predecessor, *request, valid) is None,
                Err(error) => base_refusal(self@, predecessor, *request, valid) == Some(error),
            },
    {
        let previous = self.operation(predecessor)?;
        if !previous.scope().same(&request.scope) || request.scope.account != self.account {
            return Err(JournalError::Account);
        }
        let before = match request.intent.before() {
            Some(before) => before,
            None => {
                return Err(JournalError::Intent);
            },
        };
        let same = match previous.kind() {
            Some(kind) => kind == before.kind,
            None => false,
        };
        if !same || before.target.is_some() || !valid {
            return Err(JournalError::Intent);
        }
        Ok(())
    }

    /// What a change of an object follows.
    pub fn base_for(&self, latest: Option<Id>, request: &MutationRequest, valid: bool) -> (result:
        Result<Option<WriteBase>, JournalError>)
        ensures
            result == based(self@, latest, *request, valid),
    {
        match latest {
            Some(predecessor) => {
                self.validate_mutation_base(predecessor, request, valid)?;
                self.ensure_successor_free(predecessor)?;
                Ok(Some(WriteBase { predecessor, resolved: false }))
            },
            None => {
                if valid {
                    Ok(None)
                } else {
                    Err(JournalError::Intent)
                }
            },
        }
    }

    /// The confirmed node that a base supplies.
    fn base_node(&self, base: &WriteBase, scope: &Scope, sequence: u64) -> (result: Result<
        Option<Node>,
        JournalError,
    >)
        ensures
            result == base_node(self@, *base, scope@, sequence),
    {
        let previous = self.operation(base.predecessor)?;
        if !previous.scope().same(scope) || previous.sequence() >= sequence {
            return Ok(None);
        }
        match previous.confirmed_node() {
            Some(node) => {
                if node.target.is_none() {
                    Ok(Some(node))
                } else {
                    Ok(None)
                }
            },
            None => Ok(None),
        }
    }

    /// The intent that an upload gets from the receipt of its base.
    pub fn plan_upload(&self, id: Id) -> (result: Result<Option<UploadIntent>, JournalError>)
        ensures
            result == planned_intent(self@, id),
    {
        let record = self.get(id)?;
        let base = match &record.base {
            Some(base) => base,
            None => {
                return Err(JournalError::Corrupt);
            },
        };
        match self.base_node(base, &record.scope, record.sequence)? {
            Some(node) => {
                if node.kind != NodeKind::File {
                    return Ok(None);
                }
                match node.etag {
                    Some(tag) => Ok(
                        Some(UploadIntent::Replace { item: node.id, expected_etag: tag }),
                    ),
                    None => Ok(None),
                }
            },
            None => Ok(None),
        }
    }

    /// The request that a namespace change gets from the receipt of its base.
    pub fn plan_mutation(&self, id: Id) -> (result: Result<Option<MutationRequest>, JournalError>)
        ensures
            result == planned_request(self@, id),
    {
        let record = self.mutation(id)?;
        let base = match &record.base {
            Some(base) => base,
            None => {
                return Err(JournalError::Corrupt);
            },
        };
        let node = match self.base_node(base, &record.request.scope, record.sequence)? {
            Some(node) => node,
            None => {
                return Ok(None);
            },
        };
        let scope = record.request.scope;
        let intent = match record.request.intent {
            MutationIntent::CreateFolder { .. } => {
                return Ok(None);
            },
            MutationIntent::Relocate { before, parent, name } => {
                if before.kind != node.kind {
                    return Ok(None);
                }
                MutationIntent::Relocate { before: node, parent, name }
            },
            MutationIntent::RemoveFile { before } => {
                if before.kind != node.kind {
                    return Ok(None);
                }
                MutationIntent::RemoveFile { before: node }
            },
            MutationIntent::RemoveFolder { before } => {
                if before.kind != node.kind {
                    return Ok(None);
                }
                MutationIntent::RemoveFolder { before: node }
            },
        };
        Ok(Some(MutationRequest { scope, intent }))
    }

    /// Binds an upload to the receipt of its base. `valid` is the verdict on the
    /// planned intent.
    pub fn resolve_upload(&mut self, id: Id, valid: bool) -> (result: Result<(), JournalError>)
        ensures
            stepped(upload_resolved(old(self)@, id, valid), result, old(self)@, final(self)@),
    {
        let plan = self.plan_upload(id)?;
        let mut record = self.get(id)?;
        match plan {
            Some(intent) => {
                if !valid {
                    record.state = UploadState::Failed;
                    return self.save_upload(record);
                }
                if let Some(base) = record.base {
                    record.base = Some(WriteBase { predecessor: base.predecessor, resolved: true });
                }
                let keys = upload_resources(&record.scope, &intent);
                record.intent = intent;
                claim_all(&mut self.resources, id, keys);
                self.uploads.put(id, record);
                Ok(())
            },
            None => {
                record.state = UploadState::Failed;
                self.save_upload(record)
            },
        }
    }

    /// Binds a namespace change to the receipt of its base. `valid` is the verdict
    /// on the planned request.
    pub fn resolve_mutation(&mut self, id: Id, valid: bool) -> (result: Result<(), JournalError>)
        ensures
            stepped(mutation_resolved(old(self)@, id, valid), result, old(self)@, final(self)@),
    {
        let plan = self.plan_mutation(id)?;
        let mut record = self.mutation(id)?;
        match plan {
            Some(request) => {
                record.request = request;
                if !valid {
                    record.state = MutationState::Failed;
                    return self.save_mutation(record);
                }
                let keys = mutation_resources(&record.request)?;
                if let Some(base) = record.base {
                    record.base = Some(WriteBase { predecessor: base.predecessor, resolved: true });
                }
                claim_all(&mut self.resources, id, keys);
                self.mutations.put(id, record);
                Ok(())
            },
            None => {
                record.state = MutationState::Failed;
                self.save_mutation(record)
            },
        }
    }

    /// Whether the base of an operation is complete and not yet bound.
    fn is_base_ready(&self, base: &Option<WriteBase>) -> (ready: bool)
        ensures
            ready == base_ready(self@, *base),
    {
        match base {
            Some(base) => match self.queue.get(base.predecessor) {
                Some(row) => !base.resolved && row.complete,
                None => false,
            },
            None => false,
        }
    }

    /// The uploads that wait only for their binding, in the order of their places.
    pub fn ready_uploads(&self) -> (rows: Vec<(u64, Id)>)
        ensures
            listing(self@.uploads, |id: Id, record: UploadRecord| upload_ready(self@, record), rows@),
    {
        let keep = |id: Id, record: &UploadRecord| -> (kept: bool)
            ensures
                kept == upload_ready(self@, *record),
            {
                (record.state == UploadState::Pending || record.state == UploadState::Preparing)
                    && self.is_base_ready(&record.base)
            };
        select(
            &self.uploads,
            keep,
            Ghost(|id: Id, record: UploadRecord| upload_ready(self@, record)),
        )
    }

    /// The namespace changes that wait only for their binding, in the order of
    /// their places.
    pub fn ready_mutations(&self) -> (rows: Vec<(u64, Id)>)
        ensures
            listing(
                self@.mutations,
                |id: Id, record: MutationRecord| mutation_ready(self@, record),
                rows@,
            ),
    {
        let keep = |id: Id, record: &MutationRecord| -> (kept: bool)
            ensures
                kept == mutation_ready(self@, *record),
            {
                record.state == MutationState::Pending && self.is_base_ready(&record.base)
            };
        select(
            &self.mutations,
            keep,
            Ghost(|id: Id, record: MutationRecord| mutation_ready(self@, record)),
        )
    }

    /// The next operations that wait only for their bindings, a batch at most. A newly
    /// assigned identity must claim its resources before any younger operation is claimed.
    pub fn ready_batch(&self) -> (batch: Vec<Ready>)
        ensures
            ready_batch_of(self@, batch@),
            batch@.len() == 0 <==> !waiting(self@),
    {
        let uploads = self.ready_uploads();
        let mutations = self.ready_mutations();
        let ghost wanted_uploads = |id: Id, record: UploadRecord| upload_ready(self@, record);
        let ghost wanted_mutations = |id: Id, record: MutationRecord| mutation_ready(self@, record);
        let mut batch: Vec<Ready> = Vec::new();
        let mut i: usize = 0;
        let mut j: usize = 0;
        proof {
            lemma_head(self@.uploads, wanted_uploads, uploads@);
            lemma_head(self@.mutations, wanted_mutations, mutations@);
        }
        while batch.len() < RESOLUTION_BATCH && (i < uploads.len() || j < mutations.len())
            invariant
                i <= uploads@.len(),
                j <= mutations@.len(),
                batch@.len() == i + j,
                batch@.len() <= RESOLUTION_BATCH,
                listing(self@.uploads, wanted_uploads, uploads@),
                listing(self@.mutations, wanted_mutations, mutations@),
                wanted_uploads == (|id: Id, record: UploadRecord| upload_ready(self@, record)),
                wanted_mutations == (|id: Id, record: MutationRecord|
                    mutation_ready(self@, record)),
                batch@.no_duplicates(),
                forall|k: int| 0 <= k < batch@.len() ==> is_ready(self@, #[trigger] batch@[k]),
                forall|k: int|
                    0 <= k < batch@.len() ==> match #[trigger] batch@[k] {
                        Ready::Upload(id) => exists|a: int| 0 <= a < i && uploads@[a].1 == id,
                        Ready::Mutation(id) => exists|a: int| 0 <= a < j && mutations@[a].1 == id,
                    },
                forall|a: int|
                    0 <= a < i ==> batch@.contains(Ready::Upload((#[trigger] uploads@[a]).1)),
                forall|a: int|
                    0 <= a < j ==> batch@.contains(Ready::Mutation((#[trigger] mutations@[a]).1)),
                forall|k: int, l: int|
                    0 <= k <= l < batch@.len() ==> ready_place(self@, #[trigger] batch@[k])
                        <= ready_place(self@, #[trigger] batch@[l]),
                forall|k: int|
                    0 <= k < batch@.len() && i < uploads@.len() ==> ready_place(
                        self@,
                        #[trigger] batch@[k],
                    ) <= uploads@[i as int].0,
                forall|k: int|
                    0 <= k < batch@.len() && j < mutations@.len() ==> ready_place(
                        self@,
                        #[trigger] batch@[k],
                    ) <= mutations@[j as int].0,
            decreases uploads@.len() - i + mutations@.len() - j,
        {
            let ghost before = batch@;
            if j >= mutations.len() || (i < uploads.len() && uploads[i].0 <= mutations[j].0) {
                let id = uploads[i].1;
                proof {
                    lemma_apart(self@.uploads, wanted_uploads, uploads@, i as int);
                }
                batch.push(Ready::Upload(id));
                i = i + 1;
                proof {
                    assert forall|a: int| 0 <= a < i implies batch@.contains(
                        Ready::Upload((#[trigger] uploads@[a]).1),
                    ) by {
                        lemma_kept(before, Ready::Upload(id), Ready::Upload(uploads@[a].1));
                    }
                    assert forall|a: int| 0 <= a < j implies batch@.contains(
                        Ready::Mutation((#[trigger] mutations@[a]).1),
                    ) by {
                        lemma_kept(before, Ready::Upload(id), Ready::Mutation(mutations@[a].1));
                    }
                }
            } else {
                let id = mutations[j].1;
                proof {
                    lemma_apart(self@.mutations, wanted_mutations, mutations@, j as int);
                }
                batch.push(Ready::Mutation(id));
                j = j + 1;
                proof {
                    assert forall|a: int| 0 <= a < i implies batch@.contains(
                        Ready::Upload((#[trigger] uploads@[a]).1),
                    ) by {
                        lemma_kept(before, Ready::Mutation(id), Ready::Upload(uploads@[a].1));
                    }
                    assert forall|a: int| 0 <= a < j implies batch@.contains(
                        Ready::Mutation((#[trigger] mutations@[a]).1),
                    ) by {
                        lemma_kept(before, Ready::Mutation(id), Ready::Mutation(mutations@[a].1));
                    }
                }
            }
        }
        proof {
            assert forall|other: Ready| #[trigger]
                is_ready(self@, other) && !batch@.contains(other) implies batch@.len()
                == RESOLUTION_BATCH && forall|k: int|
                0 <= k < batch@.len() ==> ready_place(self@, #[trigger] batch@[k]) <= ready_place(
                    self@,
                    other,
                ) by {
                match other {
                    Ready::Upload(id) => {
                        let row = (self@.uploads[id].sequence, id);
                        assert(chosen(self@.uploads, wanted_uploads, row));
                        assert(uploads@.contains(row));
                        let a = choose|a: int| 0 <= a < uploads@.len() && uploads@[a] == row;
                        assert(i <= a);
                        assert(i == a || earlier(uploads@[i as int], uploads@[a]));
                    },
                    Ready::Mutation(id) => {
                        let row = (self@.mutations[id].sequence, id);
                        assert(chosen(self@.mutations, wanted_mutations, row));
                        assert(mutations@.contains(row));
                        let a = choose|a: int| 0 <= a < mutations@.len() && mutations@[a] == row;
                        assert(j <= a);
                        assert(j == a || earlier(mutations@[j as int], mutations@[a]));
                    },
                }
            }
            if batch@.len() > 0 {
                match batch@[0] {
                    Ready::Upload(id) => {
                        assert(self@.uploads.contains_key(id));
                    },
                    Ready::Mutation(id) => {
                        assert(self@.mutations.contains_key(id));
                    },
                }
            }
        }
        batch
    }

    /// Whether some operation waits only for its binding.
    pub fn is_waiting(&self) -> (found: bool)
        ensures
            found == waiting(self@),
    {
        let uploads = self.ready_uploads();
        let mutations = self.ready_mutations();
        proof {
            lemma_head(
                self@.uploads,
                |id: Id, record: UploadRecord| upload_ready(self@, record),
                uploads@,
            );
            lemma_head(
                self@.mutations,
                |id: Id, record: MutationRecord| mutation_ready(self@, record),
                mutations@,
            );
        }
        uploads.len() > 0 || mutations.len() > 0
    }
}

} // verus!
