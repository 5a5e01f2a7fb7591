//! The rows of the journal.
use crate::journal::tables::{Relation, ResourceTable, ResourceView, Table};
use crate::model::{
    copy_node, Id, MutationReceipt, MutationRequest, Node, Scope, ScopeView, UploadIntent,
};
use crate::text::copy_optional;
use vstd::prelude::*;

verus! {

/// Why the journal refuses an operation.
#[derive(Clone, Copy, Debug, PartialEq, Eq, Structural)]
pub enum JournalError {
    Storage,
    Busy,
    Account,
    Intent,
    Quota,
    Missing,
    Stale,
    Corrupt,
    Schema,
}

/// What a person is told of a refusal.
pub open spec fn journal_message(error: JournalError) -> Seq<char> {
    match error {
        JournalError::Storage => "local upload storage is unavailable"@,
        JournalError::Busy => "upload journal is already owned by another process"@,
        JournalError::Account => "upload journal belongs to another account"@,
        JournalError::Intent => "invalid upload intent"@,
        JournalError::Quota => "local pending-upload storage limit reached"@,
        JournalError::Missing => "upload operation not found"@,
        JournalError::Stale => "upload attempt is stale or out of order"@,
        JournalError::Corrupt => "local upload snapshot failed integrity verification"@,
        JournalError::Schema => "unsupported upload journal schema"@,
    }
}

impl JournalError {
    /// What a person is told.
    pub fn message(&self) -> (text: &'static str)
        ensures
            text@ == journal_message(*self),
    {
        match self {
            JournalError::Storage => "local upload storage is unavailable",
            JournalError::Busy => "upload journal is already owned by another process",
            JournalError::Account => "upload journal belongs to another account",
            JournalError::Intent => "invalid upload intent",
            JournalError::Quota => "local pending-upload storage limit reached",
            JournalError::Missing => "upload operation not found",
            JournalError::Stale => "upload attempt is stale or out of order",
            JournalError::Corrupt => "local upload snapshot failed integrity verification",
            JournalError::Schema => "unsupported upload journal schema",
        }
    }
}

/// Where an upload has got to.
#[derive(Clone, Copy, Debug, PartialEq, Eq, Structural)]
pub enum UploadState {
    /// A durable namespace operation whose unchanged cloud source is being
    /// captured. This state has no uploadable payload or remote attempt.
    Preparing,
    Pending,
    Uploading,
    VerifyRequired,
    Verifying,
    Uploaded,
    Conflict,
    Failed,
}

/// Where a namespace change has got to.
#[derive(Clone, Copy, Debug, PartialEq, Eq, Structural)]
pub enum MutationState {
    Pending,
    Applying,
    VerifyRequired,
    Verifying,
    Applied,
    Conflict,
    Failed,
    NeedsReview,
}

/// The preceding operation whose receipt supplies the confirmed base version.
#[derive(Clone, Copy, Debug, PartialEq, Eq, Structural)]
pub struct WriteBase {
    pub predecessor: Id,
    pub resolved: bool,
}

/// Kept for callers that only follow uploads.
pub type UploadBase = WriteBase;

/// One queued upload of an immutable snapshot.
#[derive(Debug)]
pub struct UploadRecord {
    pub id: Id,
    pub sequence: u64,
    pub scope: Scope,
    pub intent: UploadIntent,
    pub state: UploadState,
    pub size: u64,
    pub sha256: String,
    /// An attempt token fences delayed results after restart or retry.
    pub attempt: Option<Id>,
    pub remote: Option<Node>,
    pub base: Option<WriteBase>,
    pub working_file: Option<Id>,
    /// Reference to an opaque checkpoint stored in the credential vault.
    pub session_key: Option<Id>,
    /// Contiguous prefix acknowledged by the remote session, not a committed file.
    pub transferred_bytes: u64,
    pub retry_at: u64,
    pub failed_attempts: u32,
}

impl Clone for UploadRecord {
    fn clone(&self) -> (copy: Self)
        ensures
            copy == *self,
    {
        UploadRecord {
            id: self.id,
            sequence: self.sequence,
            scope: self.scope.clone(),
            intent: self.intent.clone(),
            state: self.state,
            size: self.size,
            sha256: self.sha256.clone(),
            attempt: self.attempt,
            remote: copy_node(&self.remote),
            base: self.base,
            working_file: self.working_file,
            session_key: self.session_key,
            transferred_bytes: self.transferred_bytes,
            retry_at: self.retry_at,
            failed_attempts: self.failed_attempts,
        }
    }
}

/// One queued namespace change.
#[derive(Debug)]
pub struct MutationRecord {
    pub id: Id,
    pub sequence: u64,
    pub request: MutationRequest,
    pub state: MutationState,
    pub attempt: Option<Id>,
    pub receipt: Option<MutationReceipt>,
    pub retry_at: u64,
    pub failed_attempts: u32,
    /// Source fields are bound to this preceding operation's confirmed receipt
    /// before a worker can claim the request. Destination fields stay as they are.
    pub base: Option<WriteBase>,
    pub working_file: Option<Id>,
    /// A local reader-preservation barrier, independent of receipts.
    pub local_ready: bool,
}

impl Clone for MutationRecord {
    fn clone(&self) -> (copy: Self)
        ensures
            copy == *self,
    {
        MutationRecord {
            id: self.id,
            sequence: self.sequence,
            request: self.request.clone(),
            state: self.state,
            attempt: self.attempt,
            receipt: match &self.receipt {
                Some(receipt) => Some(receipt.clone()),
                None => None,
            },
            retry_at: self.retry_at,
            failed_attempts: self.failed_attempts,
            base: self.base,
            working_file: self.working_file,
            local_ready: self.local_ready,
        }
    }
}

/// How names are told apart within a scope.
#[derive(Clone, Copy, Debug, PartialEq, Eq, Structural)]
pub enum NamespaceNames {
    Sensitive,
    Insensitive,
}

/// One local object: a stable identity with its desired presentation.
#[derive(Debug)]
pub struct NamespaceObject {
    pub id: Id,
    pub scope: Scope,
    pub names: NamespaceNames,
    /// Stable local identity and desired presentation; never replaced with a newly
    /// assigned cloud identity merely because an upload completed.
    pub node: Node,
    pub remote: Option<Node>,
    /// Historical metadata survives after another object takes this cloud identity.
    /// Only the active owner hides or projects incoming provider items.
    pub remote_owned: bool,
    pub remote_sequence: u64,
    pub working_file: Option<Id>,
    pub latest: Option<Id>,
    pub revision: u64,
    /// The local identity stays an alias, but remote metadata owns the entry.
    pub follows_remote: bool,
    /// No directory entry; identity and any open stream survive deletion.
    pub unlinked: bool,
}

impl Clone for NamespaceObject {
    fn clone(&self) -> (copy: Self)
        ensures
            copy == *self,
    {
        NamespaceObject {
            id: self.id,
            scope: self.scope.clone(),
            names: self.names,
            node: self.node.clone(),
            remote: copy_node(&self.remote),
            remote_owned: self.remote_owned,
            remote_sequence: self.remote_sequence,
            working_file: self.working_file,
            latest: self.latest,
            revision: self.revision,
            follows_remote: self.follows_remote,
            unlinked: self.unlinked,
        }
    }
}

/// A mutable stream of application bytes.
#[derive(Debug)]
pub struct WorkingFile {
    pub id: Id,
    pub scope: Scope,
    pub node: Node,
    pub intent: UploadIntent,
    pub latest: Option<Id>,
    pub dirty: bool,
    pub generation: u64,
    /// The provider's original metadata, kept apart from the mutable revision for
    /// the first metadata-only operation.
    pub initial_remote: Option<Node>,
    /// The name was released; the stream lives on for its open users.
    pub unlinked: bool,
}

impl Clone for WorkingFile {
    fn clone(&self) -> (copy: Self)
        ensures
            copy == *self,
    {
        WorkingFile {
            id: self.id,
            scope: self.scope.clone(),
            node: self.node.clone(),
            intent: self.intent.clone(),
            latest: self.latest,
            dirty: self.dirty,
            generation: self.generation,
            initial_remote: copy_node(&self.initial_remote),
            unlinked: self.unlinked,
        }
    }
}

/// A local path takeover and its conditional publication.
#[derive(Clone, Copy, Debug, PartialEq, Eq, Structural)]
pub struct ReplacementRecord {
    pub id: Id,
    pub source: Id,
    pub victim: Id,
    pub cleanup: Id,
    pub cleanup_object: Id,
    pub local_ready: bool,
    pub remote_applied: bool,
}

/// The capture of an unchanged cloud source after a local replacement.
#[derive(Debug)]
pub struct UploadPreparation {
    pub operation: Id,
    pub source: Id,
    pub scope: Scope,
    /// A source receipt supplies its original version; the target's receipt
    /// supplies the destination tag independently.
    pub source_base: Option<Id>,
    pub remote: Option<Node>,
    /// Stored before the complete immutable file receives its final name.
    pub sha256: Option<String>,
}

impl Clone for UploadPreparation {
    fn clone(&self) -> (copy: Self)
        ensures
            copy == *self,
    {
        UploadPreparation {
            operation: self.operation,
            source: self.source,
            scope: self.scope.clone(),
            source_base: self.source_base,
            remote: copy_node(&self.remote),
            sha256: copy_optional(&self.sha256),
        }
    }
}

/// The place of an operation in the one queue of all operations.
#[derive(Clone, Copy, Debug, PartialEq, Eq, Structural)]
pub struct QueueRow {
    pub sequence: u64,
    pub complete: bool,
}

/// A destination folder that may not have a provider identity yet.
#[derive(Clone, Copy, Debug, PartialEq, Eq, Structural)]
pub struct Destination {
    pub parent: Id,
    pub predecessor: Option<Id>,
    pub resolved: bool,
}

/// The name rules chosen for each scope; the latest row of a scope counts.
#[derive(Debug)]
pub struct ScopeTable {
    pub rows: Vec<(Scope, NamespaceNames)>,
}

/// The rules that a sequence of rows states.
pub open spec fn rules(rows: Seq<(Scope, NamespaceNames)>) -> Map<ScopeView, NamespaceNames>
    decreases rows.len(),
{
    if rows.len() == 0 {
        Map::empty()
    } else {
        rules(rows.drop_last()).insert(rows.last().0@, rows.last().1)
    }
}

impl View for ScopeTable {
    type V = Map<ScopeView, NamespaceNames>;

    open spec fn view(&self) -> Map<ScopeView, NamespaceNames> {
        rules(self.rows@)
    }
}

impl ScopeTable {
    /// No rules.
    pub fn new() -> (table: Self)
        ensures
            table@ == Map::<ScopeView, NamespaceNames>::empty(),
    {
        ScopeTable { rows: Vec::new() }
    }

    /// A table with the same rules.
    pub fn copy(&self) -> (table: Self)
        ensures
            table@ == self@,
    {
        let mut rows: Vec<(Scope, NamespaceNames)> = Vec::new();
        let mut i: usize = 0;
        while i < self.rows.len()
            invariant
                i <= self.rows@.len(),
                rows@ == self.rows@.subrange(0, i as int),
            decreases self.rows@.len() - i,
        {
            let row = (self.rows[i].0.clone(), self.rows[i].1);
            rows.push(row);
            proof {
                assert(self.rows@.subrange(0, i + 1) =~= self.rows@.subrange(0, i as int).push(
                    self.rows@[i as int],
                ));
            }
            i = i + 1;
        }
        proof {
            assert(self.rows@ =~= self.rows@.subrange(0, i as int));
        }
        ScopeTable { rows }
    }

    /// The rule for a scope.
    pub fn get(&self, scope: &Scope) -> (names: Option<NamespaceNames>)
        ensures
            match names {
                Some(value) => self@.contains_key(scope@) && self@[scope@] == value,
                None => !self@.contains_key(scope@),
            },
    {
        let mut i: usize = self.rows.len();
        proof {
            assert(self.rows@ =~= self.rows@.subrange(0, i as int));
        }
        while i > 0
            invariant
                i <= self.rows@.len(),
                self@.contains_key(scope@) == rules(
                    self.rows@.subrange(0, i as int),
                ).contains_key(scope@),
                self@.contains_key(scope@) ==> self@[scope@] == rules(
                    self.rows@.subrange(0, i as int),
                )[scope@],
            decreases i,
        {
            proof {
                let part = self.rows@.subrange(0, i as int);
                assert(part.drop_last() =~= self.rows@.subrange(0, i - 1));
            }
            i = i - 1;
            if self.rows[i].0.same(scope) {
                return Some(self.rows[i].1);
            }
        }
        proof {
            assert(self.rows@.subrange(0, 0) =~= Seq::<(Scope, NamespaceNames)>::empty());
        }
        None
    }

    /// States the rule for a scope.
    pub fn put(&mut self, scope: Scope, names: NamespaceNames)
        ensures
            final(self)@ == old(self)@.insert(scope@, names),
    {
        proof {
            let more = self.rows@.push((scope, names));
            assert(more.drop_last() =~= self.rows@);
        }
        self.rows.push((scope, names));
    }
}

/// The journal of one account.
#[derive(Debug)]
pub struct UploadJournal {
    pub account: String,
    /// How many spool bytes the account may retain.
    pub quota: u64,
    /// The last place given out in the queue.
    pub last_sequence: u64,
    pub queue: Table<QueueRow>,
    pub resources: ResourceTable,
    /// The one content successor of an operation.
    pub successors: Table<Id>,
    /// Completion prerequisites: the first waits for the second.
    pub prerequisites: Relation,
    pub destinations: Table<Destination>,
    pub uploads: Table<UploadRecord>,
    /// Uploads whose payload was collected after acknowledgement.
    pub collected: Table<bool>,
    pub mutations: Table<MutationRecord>,
    pub scopes: ScopeTable,
    pub objects: Table<NamespaceObject>,
    /// Which object an operation acts on.
    pub operations: Table<Id>,
    pub working: Table<WorkingFile>,
    pub replacements: Table<ReplacementRecord>,
    pub preparations: Table<UploadPreparation>,
    /// Working streams whose bytes may be deleted.
    pub retired: Table<bool>,
    /// Counts the committed changes of the namespace.
    pub clock: u64,
    /// When each object last changed.
    pub changes: Table<u64>,
}

/// The content of a journal.
#[verifier::ext_equal]
pub struct JournalView {
    pub account: Seq<char>,
    pub quota: u64,
    pub last_sequence: u64,
    pub queue: Map<Id, QueueRow>,
    pub resources: Set<(Id, ResourceView)>,
    pub successors: Map<Id, Id>,
    pub prerequisites: Set<(Id, Id)>,
    pub destinations: Map<Id, Destination>,
    pub uploads: Map<Id, UploadRecord>,
    pub collected: Map<Id, bool>,
    pub mutations: Map<Id, MutationRecord>,
    pub scopes: Map<ScopeView, NamespaceNames>,
    pub objects: Map<Id, NamespaceObject>,
    pub operations: Map<Id, Id>,
    pub working: Map<Id, WorkingFile>,
    pub replacements: Map<Id, ReplacementRecord>,
    pub preparations: Map<Id, UploadPreparation>,
    pub retired: Map<Id, bool>,
    pub clock: u64,
    pub changes: Map<Id, u64>,
}

impl View for UploadJournal {
    type V = JournalView;

    open spec fn view(&self) -> JournalView {
        JournalView {
            account: self.account@,
            quota: self.quota,
            last_sequence: self.last_sequence,
            queue: self.queue@,
            resources: self.resources@,
            successors: self.successors@,
            prerequisites: self.prerequisites@,
            destinations: self.destinations@,
            uploads: self.uploads@,
            collected: self.collected@,
            mutations: self.mutations@,
            scopes: self.scopes@,
            objects: self.objects@,
            operations: self.operations@,
            working: self.working@,
            replacements: self.replacements@,
            preparations: self.preparations@,
            retired: self.retired@,
            clock: self.clock,
            changes: self.changes@,
        }
    }
}

impl UploadJournal {
    /// A journal with the same content, for a transaction to work on.
    pub fn copy(&self) -> (copy: Self)
        ensures
            copy@ == self@,
    {
        UploadJournal {
            account: self.account.clone(),
            quota: self.quota,
            last_sequence: self.last_sequence,
            queue: self.queue.copy(),
            resources: self.resources.copy(),
            successors: self.successors.copy(),
            prerequisites: self.prerequisites.copy(),
            destinations: self.destinations.copy(),
            uploads: self.uploads.copy(),
            collected: self.collected.copy(),
            mutations: self.mutations.copy(),
            scopes: self.scopes.copy(),
            objects: self.objects.copy(),
            operations: self.operations.copy(),
            working: self.working.copy(),
            replacements: self.replacements.copy(),
            preparations: self.preparations.copy(),
            retired: self.retired.copy(),
            clock: self.clock,
            changes: self.changes.copy(),
        }
    }
}

} // verus!
