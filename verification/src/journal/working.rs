//! Mutable application bytes and their atomically linked immutable saves. The bytes
//! live in files elsewhere; their lengths come in as arguments.
use crate::journal::ancestry::{fold, folded};
use crate::journal::generations::{answered, based, follow_refusal, follows, preview, previewed};
use crate::journal::mutations::mutation_enqueued;
use crate::journal::namespace::{bumped, next_revision, COUNTER_LIMIT};
use crate::journal::observation::{
    attached, attached_to, relocation_committed, same_id, stream_updated,
};
use crate::journal::queue::stepped;
use crate::journal::records::{
    JournalError, JournalView, MutationRecord, NamespaceNames, NamespaceObject, UploadJournal,
    UploadRecord, WorkingFile, WriteBase,
};
use crate::journal::sealing::{available, left, Sealed, Usage, WorkingSource, FILE_LIMIT};
use crate::journal::tables::increasing;
use crate::journal::uploads::generation_enqueued;
use crate::model::{
    Id, MutationIntent, MutationRequest, Node, NodeKind, Scope, ScopeView, UploadIntent,
};
use crate::outside::{fresh_id, id_text, now_seconds, write_id};
use crate::text::{optional_is, optional_view, same_optional, same_text};
use vstd::prelude::*;

verus! {

/// The largest write that is taken in at once, and the largest read.
pub const IO_LIMIT: usize = 8_388_608;

/// The node that the first metadata-only change of a stream starts from. Without a
/// provider original, a local tag is never presented as evidence of the provider's
/// content version.
pub open spec fn mutation_source_of(file: WorkingFile) -> Node {
    if file.latest is Some {
        file.node
    } else {
        match file.initial_remote {
            Some(remote) => remote,
            None => Node { content_version: None, ..file.node },
        }
    }
}

impl WorkingFile {
    /// The node that a metadata-only change of the stream starts from.
    pub fn mutation_source(&self) -> (node: Node)
        ensures
            node == mutation_source_of(*self),
    {
        if self.latest.is_some() {
            return self.node.clone();
        }
        match &self.initial_remote {
            Some(remote) => remote.clone(),
            None => {
                let mut node = self.node.clone();
                node.content_version = None;
                node
            },
        }
    }
}

/// The rules by which the names of a scope are compared.
pub open spec fn names_in(journal: JournalView, scope: ScopeView) -> NamespaceNames {
    if journal.scopes.contains_key(scope) {
        journal.scopes[scope]
    } else {
        NamespaceNames::Insensitive
    }
}

/// Both streams are known under one identity.
pub open spec fn same_stream_identity(a: WorkingFile, b: WorkingFile) -> bool {
    a.scope@ == b.scope@ && a.node.id@ == b.node.id@
}

/// Both streams have a name, and it is one.
pub open spec fn same_stream_slot(journal: JournalView, a: WorkingFile, b: WorkingFile) -> bool {
    &&& !a.unlinked && !b.unlinked && a.scope@ == b.scope@
    &&& optional_view(a.node.parent_id) == optional_view(b.node.parent_id)
    &&& folded(names_in(journal, a.scope@), a.node.name@) == folded(
        names_in(journal, a.scope@),
        b.node.name@,
    )
}

/// Another stream has the name.
pub open spec fn slot_used(journal: JournalView, file: WorkingFile) -> bool {
    exists|id: Id| #[trigger]
        journal.working.contains_key(id) && id != file.id && same_stream_slot(
            journal,
            file,
            journal.working[id],
        )
}

/// Another stream has the identity or the name.
pub open spec fn stream_used(journal: JournalView, file: WorkingFile) -> bool {
    exists|id: Id| #[trigger]
        journal.working.contains_key(id) && (same_stream_identity(file, journal.working[id])
            || same_stream_slot(journal, file, journal.working[id]))
}

/// A source of this length may be reserved.
pub open spec fn reservable(quota: u64, size: u64, usage: Usage) -> bool {
    size <= COUNTER_LIMIT && usage.files < FILE_LIMIT && size <= left(quota, usage.bytes)
}

/// The source is not complete, or not of the stated length.
pub open spec fn incomplete(source: WorkingSource, own: bool, size: u64) -> bool {
    !own || source.written != source.size || size != source.size
}

/// The scope and the node cannot become a working stream.
pub open spec fn unfit(scope: Scope, node: Node, new: bool, valid: bool) -> bool {
    scope.provider@.len() == 0 || scope.collection@.len() == 0 || node.kind != NodeKind::File
        || node.target is Some || (new && node.size != 0) || node.parent_id is None || (!new
        && node.etag is None) || !valid
}

/// A stream with nothing saved yet.
pub open spec fn new_stream(
    id: Id,
    local: String,
    version: String,
    scope: Scope,
    node: Node,
    new: bool,
) -> WorkingFile {
    WorkingFile {
        id,
        scope,
        node: Node {
            id: if new {
                local
            } else {
                node.id
            },
            content_version: Some(version),
            ..node
        },
        intent: if new {
            UploadIntent::Create { parent: node.parent_id->0, name: node.name }
        } else {
            UploadIntent::Replace { item: node.id, expected_etag: node.etag->0 }
        },
        latest: None,
        dirty: new,
        generation: 0,
        initial_remote: if new {
            None
        } else {
            Some(node)
        },
        unlinked: false,
    }
}

/// A complete source becomes a working stream. `own` says that it lies in this
/// account's spool; `valid` is the verdict on the intents.
pub open spec fn stream_published(
    journal: JournalView,
    id: Id,
    local: String,
    version: String,
    scope: Scope,
    node: Node,
    new: bool,
    source: WorkingSource,
    own: bool,
    valid: bool,
) -> Result<(JournalView, WorkingFile), JournalError> {
    if incomplete(source, own, node.size) {
        Err(JournalError::Corrupt)
    } else if scope.account@ != journal.account {
        Err(JournalError::Account)
    } else if unfit(scope, node, new, valid) {
        Err(JournalError::Intent)
    } else {
        let file = new_stream(id, local, version, scope, node, new);
        if stream_used(journal, file) {
            Err(JournalError::Stale)
        } else {
            match attached(journal, file) {
                Err(error) => Err(error),
                Ok((state, stream)) => if state.working.contains_key(id) {
                    Err(JournalError::Storage)
                } else {
                    Ok(
                        (
                            JournalView { working: state.working.insert(id, stream), ..state },
                            stream,
                        ),
                    )
                },
            }
        }
    }
}

/// A complete source becomes the working stream of one object.
pub open spec fn stream_published_for(
    journal: JournalView,
    id: Id,
    version: String,
    object: Id,
    scope: Scope,
    remote: Node,
    source: WorkingSource,
    own: bool,
) -> Result<(JournalView, WorkingFile), JournalError> {
    if incomplete(source, own, remote.size) {
        Err(JournalError::Corrupt)
    } else if scope.account@ != journal.account {
        Err(JournalError::Account)
    } else if unfit(scope, remote, false, true) {
        Err(JournalError::Intent)
    } else if !journal.objects.contains_key(object) {
        Err(JournalError::Missing)
    } else {
        match attached_to(
            journal,
            Some(journal.objects[object]),
            new_stream(id, version, version, scope, remote, false),
        ) {
            Err(error) => Err(error),
            Ok((state, stream)) => if state.working.contains_key(id) {
                Err(JournalError::Storage)
            } else {
                Ok((JournalView { working: state.working.insert(id, stream), ..state }, stream))
            },
        }
    }
}

/// A stream is stored, and its object presents it.
pub open spec fn stream_saved(journal: JournalView, file: WorkingFile) -> Result<
    JournalView,
    JournalError,
> {
    if !journal.working.contains_key(file.id) {
        Err(JournalError::Missing)
    } else {
        stream_updated(
            JournalView { working: journal.working.insert(file.id, file), ..journal },
            file,
        )
    }
}

/// The stream is marked before its bytes change, so that a partial write or a crash
/// never makes recovery discard it as an unchanged copy. `length` is the length of
/// its bytes and `retained` those of the whole spool.
pub open spec fn change_begun(
    journal: JournalView,
    id: Id,
    size: u64,
    length: u64,
    retained: u64,
) -> Result<(JournalView, WorkingFile), JournalError> {
    if size > COUNTER_LIMIT {
        Err(JournalError::Quota)
    } else if !journal.working.contains_key(id) {
        Err(JournalError::Missing)
    } else {
        let file = journal.working[id];
        if left(size, length) > left(journal.quota, retained) || file.generation == u64::MAX {
            Err(JournalError::Quota)
        } else {
            let marked = WorkingFile {
                dirty: true,
                generation: (file.generation + 1) as u64,
                ..file
            };
            match stream_saved(journal, marked) {
                Err(error) => Err(error),
                Ok(state) => Ok((state, marked)),
            }
        }
    }
}

/// The bytes of a stream have this length now.
pub open spec fn change_finished(journal: JournalView, id: Id, size: u64, now: u64) -> Result<
    (JournalView, WorkingFile),
    JournalError,
> {
    if !journal.working.contains_key(id) {
        Err(JournalError::Missing)
    } else {
        let file = journal.working[id];
        let grown = WorkingFile {
            node: Node { size, modified_unix: now, ..file.node },
            ..file
        };
        match stream_saved(journal, grown) {
            Err(error) => Err(error),
            Ok(state) => Ok((state, grown)),
        }
    }
}

/// Bytes are about to be written at an offset. An empty write changes nothing.
pub open spec fn write_begun(
    journal: JournalView,
    id: Id,
    offset: u64,
    count: nat,
    length: u64,
    retained: u64,
) -> Result<(JournalView, WorkingFile), JournalError> {
    if count > IO_LIMIT {
        Err(JournalError::Intent)
    } else if count == 0 {
        if journal.working.contains_key(id) {
            Ok((journal, journal.working[id]))
        } else {
            Err(JournalError::Missing)
        }
    } else if offset + count > u64::MAX {
        Err(JournalError::Quota)
    } else {
        change_begun(journal, id, (offset + count) as u64, length, retained)
    }
}

/// How many bytes a read returns.
pub open spec fn read_count(length: u64, offset: u64, count: u32) -> u64 {
    let rest = left(length, offset);
    let wanted = if rest < count {
        rest
    } else {
        count as u64
    };
    if wanted < IO_LIMIT {
        wanted
    } else {
        IO_LIMIT as u64
    }
}

/// How many bytes a read returns.
pub fn readable(length: u64, offset: u64, count: u32) -> (bytes: u64)
    ensures
        bytes == read_count(length, offset, count),
{
    let rest: u64 = available(length, offset);
    let wanted: u64 = if rest < count as u64 {
        rest
    } else {
        count as u64
    };
    if wanted < IO_LIMIT as u64 {
        wanted
    } else {
        IO_LIMIT as u64
    }
}

/// An upload is the save of a stream's generation.
pub open spec fn generation_committed(
    journal: JournalView,
    id: Id,
    generation: u64,
    previous: Option<Id>,
    upload: UploadRecord,
) -> Result<JournalView, JournalError> {
    if !journal.working.contains_key(id) {
        Err(JournalError::Storage)
    } else {
        let file = journal.working[id];
        if !file.dirty || file.generation != generation || file.latest != previous || file.scope@
            != upload.scope@ {
            Err(JournalError::Stale)
        } else {
            stream_saved(
                journal,
                WorkingFile {
                    latest: Some(upload.id),
                    dirty: false,
                    node: Node { size: upload.size, ..file.node },
                    ..file
                },
            )
        }
    }
}

/// The intent with which a stream is saved: its own, or the one that follows its
/// latest operation.
pub open spec fn seals_with(journal: JournalView, file: WorkingFile, intent: UploadIntent) -> bool {
    match file.latest {
        Some(previous) => exists|scope: Scope| #[trigger] follows(journal, previous, scope, intent),
        None => intent == file.intent,
    }
}

/// Why a stream cannot be saved behind its latest operation.
pub open spec fn seal_refusal(journal: JournalView, file: WorkingFile) -> Option<JournalError> {
    match file.latest {
        Some(previous) => follow_refusal(journal, previous),
        None => None,
    }
}

/// A dirty stream is saved as an immutable snapshot.
pub open spec fn stream_sealed(
    journal: JournalView,
    upload: Id,
    id: Id,
    intent: UploadIntent,
    valid: bool,
    usage: Usage,
    sealed: Sealed,
) -> Result<(JournalView, Option<UploadRecord>), JournalError> {
    let file = journal.working[id];
    let base = match file.latest {
        Some(predecessor) => Some(WriteBase { predecessor, resolved: false }),
        None => None,
    };
    match generation_enqueued(
        journal,
        upload,
        file.scope,
        intent,
        valid,
        base,
        Seq::empty(),
        Some(id),
        usage,
        sealed,
    ) {
        Err(error) => Err(error),
        Ok((queued, record)) => match generation_committed(
            queued,
            id,
            file.generation,
            file.latest,
            record,
        ) {
            Err(error) => Err(error),
            Ok(state) => Ok((state, Some(record))),
        },
    }
}

/// What sealing a stream does.
pub open spec fn sealing(
    journal: JournalView,
    upload: Id,
    id: Id,
    valid: bool,
    usage: Usage,
    sealed: Sealed,
    result: Result<Option<UploadRecord>, JournalError>,
    after: JournalView,
) -> bool {
    if !journal.working.contains_key(id) {
        result == Err::<Option<UploadRecord>, JournalError>(JournalError::Missing) && after
            == journal
    } else if !journal.working[id].dirty {
        result == Ok::<Option<UploadRecord>, JournalError>(None) && after == journal
    } else {
        match seal_refusal(journal, journal.working[id]) {
            Some(error) => result == Err::<Option<UploadRecord>, JournalError>(error) && after
                == journal,
            None => exists|intent: UploadIntent| #[trigger]
                seals_with(journal, journal.working[id], intent) && answered(
                    stream_sealed(journal, upload, id, intent, valid, usage, sealed),
                    result,
                    journal,
                    after,
                ),
        }
    }
}

/// A queued relocation moves a stream and its object.
pub open spec fn stream_relocation_committed(
    journal: JournalView,
    file: WorkingFile,
    mutation: MutationRecord,
) -> Result<JournalView, JournalError> {
    if !journal.working.contains_key(file.id) {
        Err(JournalError::Storage)
    } else {
        let old = journal.working[file.id];
        let predecessor = match mutation.base {
            Some(base) => Some(base.predecessor),
            None => None,
        };
        if old.dirty || old.latest != file.latest || old.scope@ != file.scope@ || old.node.id@
            != file.node.id@ || old.generation + 1 != file.generation || predecessor != old.latest
            || mutation.request.scope@ != old.scope@ || mutation.working_file != Some(old.id) {
            Err(JournalError::Stale)
        } else {
            match mutation.request.intent {
                MutationIntent::Relocate { before, parent, name } => if before@
                    != mutation_source_of(old)@ || optional_view(file.node.parent_id) != Some(
                    parent@,
                ) || file.node.name@ != name@ || slot_used(journal, file) {
                    Err(JournalError::Stale)
                } else {
                    stream_saved(journal, WorkingFile { latest: Some(mutation.id), ..file })
                },
                _ => Err(JournalError::Intent),
            }
        }
    }
}

/// The relocation of a stream.
pub open spec fn stream_request(file: WorkingFile, parent: String, name: String) -> MutationRequest {
    MutationRequest {
        scope: file.scope,
        intent: MutationIntent::Relocate { before: mutation_source_of(file), parent, name },
    }
}

/// A stream gets another name. `named` is the verdict on the name and parent, `valid`
/// that on the request. A dirty stream has to be sealed first.
pub open spec fn stream_relocated(
    journal: JournalView,
    operation: Id,
    id: Id,
    parent: String,
    name: String,
    named: bool,
    valid: bool,
) -> Result<(JournalView, MutationRecord), JournalError> {
    if !named {
        Err(JournalError::Intent)
    } else if !journal.working.contains_key(id) {
        Err(JournalError::Missing)
    } else {
        let file = journal.working[id];
        if file.node.id@ == parent@ {
            Err(JournalError::Intent)
        } else {
            let request = stream_request(file, parent, name);
            match based(journal, file.latest, request, valid) {
                Err(error) => Err(error),
                Ok(base) => if file.generation == u64::MAX {
                    Err(JournalError::Quota)
                } else {
                    match mutation_enqueued(
                        journal,
                        operation,
                        request,
                        base,
                        Seq::empty(),
                        Some(id),
                    ) {
                        Err(error) => Err(error),
                        Ok((queued, record)) => match stream_relocation_committed(
                            queued,
                            WorkingFile {
                                node: Node { parent_id: Some(parent), name, ..file.node },
                                generation: (file.generation + 1) as u64,
                                ..file
                            },
                            record,
                        ) {
                            Err(error) => Err(error),
                            Ok(state) => Ok((state, record)),
                        },
                    }
                },
            }
        }
    }
}

/// What relocating a stream does. Unsaved bytes are saved first, and stay saved where the
/// relocation behind them is refused.
pub open spec fn relocating(
    journal: JournalView,
    upload: Id,
    operation: Id,
    id: Id,
    parent: String,
    name: String,
    named: bool,
    savable: bool,
    usage: Usage,
    sealed: Sealed,
    valid: bool,
    result: Result<MutationRecord, JournalError>,
    after: JournalView,
) -> bool {
    if !named {
        result == Err::<MutationRecord, JournalError>(JournalError::Intent) && after == journal
    } else if !journal.working.contains_key(id) {
        result == Err::<MutationRecord, JournalError>(JournalError::Missing) && after == journal
    } else if journal.working[id].node.id@ == parent@ {
        result == Err::<MutationRecord, JournalError>(JournalError::Intent) && after == journal
    } else if !journal.working[id].dirty {
        answered(
            stream_relocated(journal, operation, id, parent, name, named, valid),
            result,
            journal,
            after,
        )
    } else {
        exists|saved: Result<Option<UploadRecord>, JournalError>, middle: JournalView| #[trigger]
            sealing(journal, upload, id, savable, usage, sealed, saved, middle) && match saved {
                Err(error) => result == Err::<MutationRecord, JournalError>(error) && after
                    == middle,
                Ok(_) => answered(
                    stream_relocated(middle, operation, id, parent, name, named, valid),
                    result,
                    middle,
                    after,
                ),
            }
    }
}

/// The request of a stream's relocation, as it is once unsaved bytes of this length are
/// saved.
pub open spec fn request_behind_save(
    file: WorkingFile,
    size: u64,
    parent: String,
    name: String,
) -> MutationRequest {
    if file.dirty {
        MutationRequest {
            scope: file.scope,
            intent: MutationIntent::Relocate {
                before: Node { size, ..file.node },
                parent,
                name,
            },
        }
    } else {
        stream_request(file, parent, name)
    }
}

/// The object and the request of a relocation without a working stream.
pub open spec fn object_request(object: NamespaceObject, parent: String, name: String) -> Result<
    MutationRequest,
    JournalError,
> {
    match object.remote {
        Some(before) => Ok(
            MutationRequest {
                scope: object.scope,
                intent: MutationIntent::Relocate { before, parent, name },
            },
        ),
        None => Err(JournalError::Corrupt),
    }
}

/// A local file without a stream gets another name.
pub open spec fn file_relocated(
    journal: JournalView,
    operation: Id,
    id: Id,
    parent: String,
    name: String,
    valid: bool,
) -> Result<(JournalView, MutationRecord), JournalError> {
    let object = journal.objects[id];
    match object_request(object, parent, name) {
        Err(error) => Err(error),
        Ok(request) => match based(journal, object.latest, request, valid) {
            Err(error) => Err(error),
            Ok(base) => match bumped(
                NamespaceObject {
                    node: Node { parent_id: Some(parent), name, ..object.node },
                    ..object
                },
            ) {
                Err(error) => Err(error),
                Ok(moved) => match mutation_enqueued(
                    journal,
                    operation,
                    request,
                    base,
                    Seq::empty(),
                    None,
                ) {
                    Err(error) => Err(error),
                    Ok((queued, record)) => match relocation_committed(queued, moved, record) {
                        Err(error) => Err(error),
                        Ok(state) => Ok((state, record)),
                    },
                },
            },
        },
    }
}

/// Why a local file is not relocated.
pub open spec fn relocation_refusal(journal: JournalView, id: Id, revision: u64) -> Option<
    JournalError,
> {
    if !journal.objects.contains_key(id) {
        Some(JournalError::Missing)
    } else if journal.objects[id].revision != revision || journal.objects[id].follows_remote
        || journal.objects[id].unlinked {
        Some(JournalError::Stale)
    } else if journal.objects[id].node.kind != NodeKind::File {
        Some(JournalError::Intent)
    } else {
        None
    }
}

/// What relocating a local file does: its metadata alone moves, or its stream too, behind
/// the save of its unsaved bytes.
pub open spec fn relocating_file(
    journal: JournalView,
    upload: Id,
    operation: Id,
    id: Id,
    revision: u64,
    parent: String,
    name: String,
    named: bool,
    savable: bool,
    usage: Usage,
    sealed: Sealed,
    valid: bool,
    result: Result<MutationRecord, JournalError>,
    after: JournalView,
) -> bool {
    match relocation_refusal(journal, id, revision) {
        Some(error) => result == Err::<MutationRecord, JournalError>(error) && after == journal,
        None => match journal.objects[id].working_file {
            Some(stream) => relocating(
                journal,
                upload,
                operation,
                stream,
                parent,
                name,
                named,
                savable,
                usage,
                sealed,
                valid,
                result,
                after,
            ),
            None => answered(
                file_relocated(journal, operation, id, parent, name, valid),
                result,
                journal,
                after,
            ),
        },
    }
}

/// A stream after a restart: its bytes have this length. A clean stream of another
/// length is corrupt.
pub open spec fn stream_recovered(journal: JournalView, id: Id, length: u64) -> Result<
    JournalView,
    JournalError,
> {
    if !journal.working.contains_key(id) {
        Err(JournalError::Missing)
    } else {
        let file = journal.working[id];
        if length == file.node.size {
            Ok(journal)
        } else if !file.dirty {
            Err(JournalError::Corrupt)
        } else {
            stream_saved(
                journal,
                WorkingFile { node: Node { size: length, ..file.node }, ..file },
            )
        }
    }
}

impl UploadJournal {
    /// Whether the journal belongs to an account.
    pub fn owns_account(&self, account: &str) -> (owns: bool)
        ensures
            owns == (self@.account == account@),
    {
        same_text(self.account.as_str(), account)
    }

    /// Reserves a working source of a length.
    pub fn reserve_working(&self, size: u64, usage: Usage) -> (result: Result<
        WorkingSource,
        JournalError,
    >)
        ensures
            result == (if reservable(self@.quota, size, usage) {
                Ok::<WorkingSource, JournalError>(WorkingSource { size, written: 0 })
            } else {
                Err(JournalError::Quota)
            }),
    {
        if size > COUNTER_LIMIT || usage.files >= FILE_LIMIT || size > available(
            self.quota,
            usage.bytes,
        ) {
            return Err(JournalError::Quota);
        }
        Ok(WorkingSource { size, written: 0 })
    }

    /// The stream with this identity.
    pub fn working_file(&self, id: Id) -> (result: Result<WorkingFile, JournalError>)
        ensures
            match result {
                Ok(file) => self@.working.contains_key(id) && file == self@.working[id],
                Err(error) => error == JournalError::Missing && !self@.working.contains_key(id),
            },
    {
        match self.working.get(id) {
            Some(file) => Ok(file.clone()),
            None => Err(JournalError::Missing),
        }
    }

    /// The identities of the streams, in order.
    pub fn working_files(&self) -> (ids: Vec<Id>)
        ensures
            increasing(ids@),
            forall|id: Id| #[trigger] ids@.contains(id) <==> self@.working.contains_key(id),
    {
        self.working.ids()
    }

    /// The stream with a local identity.
    pub fn working_by_identity(&self, scope: &Scope, item: &str) -> (found: Option<WorkingFile>)
        ensures
            match found {
                Some(file) => file.scope@ == scope@ && file.node.id@ == item@ && exists|id: Id|
                    #[trigger] self@.working.contains_key(id) && self@.working[id] == file,
                None => forall|id: Id| #[trigger]
                    self@.working.contains_key(id) ==> !(self@.working[id].scope@ == scope@
                        && self@.working[id].node.id@ == item@),
            },
    {
        let ids = self.working.ids();
        let mut i: usize = 0;
        while i < ids.len()
            invariant
                i <= ids@.len(),
                forall|id: Id| ids@.contains(id) <==> self@.working.contains_key(id),
                forall|j: int| 0 <= j < ids@.len() ==> self@.working.contains_key(#[trigger] ids@[j]),
                forall|j: int|
                    #![trigger ids@[j]]
                    0 <= j < i ==> !(self@.working[ids@[j]].scope@ == scope@
                        && self@.working[ids@[j]].node.id@ == item@),
            decreases ids@.len() - i,
        {
            assert(self@.working.contains_key(ids@[i as int]));
            if let Some(file) = self.working.get(ids[i]) {
                if file.scope.same(scope) && same_text(file.node.id.as_str(), item) {
                    return Some(file.clone());
                }
            }
            i = i + 1;
        }
        proof {
            assert forall|id: Id| #[trigger] self@.working.contains_key(id) implies !(
            self@.working[id].scope@ == scope@ && self@.working[id].node.id@ == item@) by {
                assert(ids@.contains(id));
                let j = choose|j: int| 0 <= j < ids@.len() && ids@[j] == id;
                assert(ids@[j] == id);
            }
        }
        None
    }

    /// The rules by which the names of a scope are compared.
    fn stream_names(&self, scope: &Scope) -> (names: NamespaceNames)
        ensures
            names == names_in(self@, scope@),
    {
        match self.scopes.get(scope) {
            Some(names) => names,
            None => NamespaceNames::Insensitive,
        }
    }

    /// Whether both streams have one name.
    fn shares_slot(&self, a: &WorkingFile, b: &WorkingFile) -> (same: bool)
        ensures
            same == same_stream_slot(self@, *a, *b),
    {
        if a.unlinked || b.unlinked || !a.scope.same(&b.scope) || !same_optional(
            &a.node.parent_id,
            &b.node.parent_id,
        ) {
            return false;
        }
        let names = self.stream_names(&a.scope);
        fold(names, &a.node.name) == fold(names, &b.node.name)
    }

    /// Whether another stream has the identity or the name, and whether another has
    /// the name.
    fn stream_conflicts(&self, file: &WorkingFile) -> (found: (bool, bool))
        ensures
            found.0 == stream_used(self@, *file),
            found.1 == slot_used(self@, *file),
    {
        let ids = self.working.ids();
        let ghost m = self@.working;
        let mut used = false;
        let mut slot = false;
        let mut i: usize = 0;
        while i < ids.len()
            invariant
                i <= ids@.len(),
                m == self@.working,
                forall|id: Id| ids@.contains(id) <==> m.contains_key(id),
                forall|j: int| 0 <= j < ids@.len() ==> m.contains_key(#[trigger] ids@[j]),
                used ==> stream_used(self@, *file),
                slot ==> slot_used(self@, *file),
                forall|j: int|
                    #![trigger ids@[j]]
                    0 <= j < i ==> (same_stream_identity(*file, m[ids@[j]]) || same_stream_slot(
                        self@,
                        *file,
                        m[ids@[j]],
                    ) ==> used) && (ids@[j] != file.id && same_stream_slot(
                        self@,
                        *file,
                        m[ids@[j]],
                    ) ==> slot),
            decreases ids@.len() - i,
        {
            let id = ids[i];
            assert(m.contains_key(ids@[i as int]));
            if let Some(other) = self.working.get(id) {
                let shares = self.shares_slot(file, other);
                if shares || (file.scope.same(&other.scope) && file.node.id == other.node.id) {
                    used = true;
                }
                if shares && id != file.id {
                    slot = true;
                }
            }
            i = i + 1;
        }
        proof {
            assert forall|id: Id| #[trigger] m.contains_key(id) implies exists|j: int|
                0 <= j < i && ids@[j] == id by {
                assert(ids@.contains(id));
            }
        }
        (used, slot)
    }

    /// Publishes a complete source under a given identity.
    pub fn publish_working_as(
        &mut self,
        id: Id,
        local: String,
        version: String,
        scope: Scope,
        node: Node,
        new: bool,
        source: WorkingSource,
        own: bool,
        valid: bool,
    ) -> (result: Result<WorkingFile, JournalError>)
        ensures
            answered(
                stream_published(
                    old(self)@,
                    id,
                    local,
                    version,
                    scope,
                    node,
                    new,
                    source,
                    own,
                    valid,
                ),
                result,
                old(self)@,
                final(self)@,
            ),
    {
        if !own || source.written != source.size || node.size != source.size {
            return Err(JournalError::Corrupt);
        }
        if scope.account != self.account {
            return Err(JournalError::Account);
        }
        if scope.provider.as_str().is_empty() || scope.collection.as_str().is_empty() || node.kind
            != NodeKind::File || node.target.is_some() || (new && node.size != 0) || !valid {
            return Err(JournalError::Intent);
        }
        let parent = match &node.parent_id {
            Some(parent) => parent.clone(),
            None => {
                return Err(JournalError::Intent);
            },
        };
        let intent = if new {
            UploadIntent::Create { parent, name: node.name.clone() }
        } else {
            match &node.etag {
                Some(tag) => UploadIntent::Replace {
                    item: node.id.clone(),
                    expected_etag: tag.clone(),
                },
                None => {
                    return Err(JournalError::Intent);
                },
            }
        };
        let initial_remote = if new {
            None
        } else {
            Some(node.clone())
        };
        let mut stored = node;
        if new {
            stored.id = local;
        }
        stored.content_version = Some(version);
        let file = WorkingFile {
            id,
            scope,
            node: stored,
            intent,
            latest: None,
            dirty: new,
            generation: 0,
            initial_remote,
            unlinked: false,
        };
        if self.stream_conflicts(&file).0 {
            return Err(JournalError::Stale);
        }
        let mut tx = self.copy();
        let stream = tx.attach_working(file)?;
        if tx.working.has(id) {
            return Err(JournalError::Storage);
        }
        tx.working.put(id, stream.clone());
        *self = tx;
        Ok(stream)
    }

    /// Publishes a complete, version-checked source for an existing file, or an empty
    /// new file. `own` says that the source lies in this account's spool; `valid` is
    /// the verdict on the intents.
    pub fn publish_working(
        &mut self,
        scope: Scope,
        node: Node,
        new: bool,
        source: WorkingSource,
        own: bool,
        valid: bool,
    ) -> (result: Result<WorkingFile, JournalError>)
        ensures
            exists|id: Id, local: String, version: String|
                local@ == "local-"@ + id_text(id) && version@ == "working-"@ + id_text(id)
                    && answered(
                    #[trigger] stream_published(
                        old(self)@,
                        id,
                        local,
                        version,
                        scope,
                        node,
                        new,
                        source,
                        own,
                        valid,
                    ),
                    result,
                    old(self)@,
                    final(self)@,
                ),
    {
        let id = fresh_id();
        let text = write_id(id);
        let mut local = "local-".to_string();
        local.append(text.as_str());
        let mut version = "working-".to_string();
        version.append(text.as_str());
        self.publish_working_as(id, local, version, scope, node, new, source, own, valid)
    }

    /// Publishes a complete source as the stream of one object, under a given
    /// identity.
    pub fn publish_working_for(
        &mut self,
        id: Id,
        version: String,
        object: Id,
        scope: Scope,
        remote: Node,
        source: WorkingSource,
        own: bool,
    ) -> (result: Result<WorkingFile, JournalError>)
        ensures
            answered(
                stream_published_for(
                    old(self)@,
                    id,
                    version,
                    object,
                    scope,
                    remote,
                    source,
                    own,
                ),
                result,
                old(self)@,
                final(self)@,
            ),
    {
        if !own || source.written != source.size || remote.size != source.size {
            return Err(JournalError::Corrupt);
        }
        if scope.account != self.account {
            return Err(JournalError::Account);
        }
        if scope.provider.as_str().is_empty() || scope.collection.as_str().is_empty() || remote.kind
            != NodeKind::File || remote.target.is_some() || remote.parent_id.is_none() {
            return Err(JournalError::Intent);
        }
        let intent = match &remote.etag {
            Some(tag) => UploadIntent::Replace {
                item: remote.id.clone(),
                expected_etag: tag.clone(),
            },
            None => {
                return Err(JournalError::Intent);
            },
        };
        let home = self.namespace_object(object)?;
        let mut stored = remote.clone();
        stored.content_version = Some(version);
        let file = WorkingFile {
            id,
            scope,
            node: stored,
            intent,
            latest: None,
            dirty: false,
            generation: 0,
            initial_remote: Some(remote),
            unlinked: false,
        };
        let mut tx = self.copy();
        let stream = tx.attach_working_to(Some(home), file)?;
        if tx.working.has(id) {
            return Err(JournalError::Storage);
        }
        tx.working.put(id, stream.clone());
        *self = tx;
        Ok(stream)
    }

    /// Stores a stream and lets its object present it.
    pub fn save_working(&mut self, file: &WorkingFile) -> (result: Result<(), JournalError>)
        ensures
            stepped(stream_saved(old(self)@, *file), result, old(self)@, final(self)@),
    {
        if !self.working.has(file.id) {
            return Err(JournalError::Missing);
        }
        let mut tx = self.copy();
        tx.working.put(file.id, file.clone());
        tx.update_working(file)?;
        *self = tx;
        Ok(())
    }

    /// Marks a stream before its bytes change to a size.
    pub fn begin_change(&mut self, id: Id, size: u64, length: u64, retained: u64) -> (result: Result<
        WorkingFile,
        JournalError,
    >)
        ensures
            answered(
                change_begun(old(self)@, id, size, length, retained),
                result,
                old(self)@,
                final(self)@,
            ),
    {
        if size > COUNTER_LIMIT {
            return Err(JournalError::Quota);
        }
        let mut file = self.working_file(id)?;
        if available(size, length) > available(self.quota, retained) || file.generation == u64::MAX {
            return Err(JournalError::Quota);
        }
        file.dirty = true;
        file.generation = file.generation + 1;
        self.save_working(&file)?;
        Ok(file)
    }

    /// Marks a stream before bytes are written to it.
    pub fn begin_write(&mut self, id: Id, offset: u64, count: usize, length: u64, retained: u64) -> (result:
        Result<WorkingFile, JournalError>)
        ensures
            answered(
                write_begun(old(self)@, id, offset, count as nat, length, retained),
                result,
                old(self)@,
                final(self)@,
            ),
    {
        if count > IO_LIMIT {
            return Err(JournalError::Intent);
        }
        if count == 0 {
            return self.working_file(id);
        }
        match offset.checked_add(count as u64) {
            Some(end) => self.begin_change(id, end, length, retained),
            None => Err(JournalError::Quota),
        }
    }

    /// Records the length of a stream's bytes at a given second.
    pub fn finish_change_at(&mut self, id: Id, size: u64, now: u64) -> (result: Result<
        WorkingFile,
        JournalError,
    >)
        ensures
            answered(change_finished(old(self)@, id, size, now), result, old(self)@, final(self)@),
    {
        let mut file = self.working_file(id)?;
        file.node.size = size;
        file.node.modified_unix = now;
        self.save_working(&file)?;
        Ok(file)
    }

    /// Records the length of a stream's bytes after they changed.
    pub fn finish_change(&mut self, id: Id, size: u64) -> (result: Result<WorkingFile, JournalError>)
        ensures
            exists|now: u64|
                answered(
                    #[trigger] change_finished(old(self)@, id, size, now),
                    result,
                    old(self)@,
                    final(self)@,
                ),
    {
        self.finish_change_at(id, size, now_seconds())
    }

    /// Links an upload to the generation of the stream that it saves.
    fn commit_generation(
        &mut self,
        id: Id,
        generation: u64,
        previous: Option<Id>,
        upload: &UploadRecord,
    ) -> (result: Result<(), JournalError>)
        ensures
            stepped(
                generation_committed(old(self)@, id, generation, previous, *upload),
                result,
                old(self)@,
                final(self)@,
            ),
    {
        let mut file = match self.working.get(id) {
            Some(file) => file.clone(),
            None => {
                return Err(JournalError::Storage);
            },
        };
        if !file.dirty || file.generation != generation || !same_id(file.latest, previous)
            || !file.scope.same(&upload.scope) {
            return Err(JournalError::Stale);
        }
        file.latest = Some(upload.id);
        file.dirty = false;
        file.node.size = upload.size;
        self.save_working(&file)
    }

    /// The scope and intent with which a dirty stream would be saved.
    pub fn seal_plan(&self, id: Id) -> (result: Result<Option<(Scope, UploadIntent)>, JournalError>)
        ensures
            match result {
                Ok(Some(plan)) => self@.working.contains_key(id) && self@.working[id].dirty
                    && seal_refusal(self@, self@.working[id]) is None && plan.0
                    == self@.working[id].scope && seals_with(self@, self@.working[id], plan.1),
                Ok(None) => self@.working.contains_key(id) && !self@.working[id].dirty,
                Err(error) => if self@.working.contains_key(id) {
                    self@.working[id].dirty && seal_refusal(self@, self@.working[id]) == Some(error)
                } else {
                    error == JournalError::Missing
                },
            },
    {
        let file = self.working_file(id)?;
        if !file.dirty {
            return Ok(None);
        }
        match file.latest {
            Some(previous) => {
                let (scope, intent) = self.upload_intent_after(previous)?;
                proof {
                    assert(follows(self@, previous, scope, intent));
                }
                Ok(Some((file.scope, intent)))
            },
            None => Ok(Some((file.scope, file.intent))),
        }
    }

    /// Saves a dirty stream as an immutable snapshot under a given identity.
    pub fn seal_working_as(
        &mut self,
        upload: Id,
        id: Id,
        valid: bool,
        usage: Usage,
        sealed: Sealed,
    ) -> (result: Result<Option<UploadRecord>, JournalError>)
        ensures
            sealing(old(self)@, upload, id, valid, usage, sealed, result, final(self)@),
    {
        let (_, intent) = match self.seal_plan(id)? {
            Some(plan) => plan,
            None => {
                return Ok(None);
            },
        };
        let file = self.working_file(id)?;
        proof {
            assert(seals_with(self@, self@.working[id], intent));
        }
        let base = match file.latest {
            Some(predecessor) => Some(WriteBase { predecessor, resolved: false }),
            None => None,
        };
        let none: Vec<Id> = Vec::new();
        let generation: u64 = file.generation;
        let mut tx = self.copy();
        let record = tx.enqueue_generation(
            upload,
            file.scope,
            intent,
            valid,
            base,
            &none,
            Some(id),
            usage,
            sealed,
        )?;
        tx.commit_generation(id, generation, file.latest, &record)?;
        *self = tx;
        Ok(Some(record))
    }

    /// Saves a dirty stream as an immutable snapshot. `valid` is the verdict on the
    /// intent of `seal_plan`.
    pub fn seal_working(&mut self, id: Id, valid: bool, usage: Usage, sealed: Sealed) -> (result: Result<
        Option<UploadRecord>,
        JournalError,
    >)
        ensures
            exists|upload: Id| #[trigger]
                sealing(old(self)@, upload, id, valid, usage, sealed, result, final(self)@),
    {
        self.seal_working_as(fresh_id(), id, valid, usage, sealed)
    }

    /// Moves a stream and its object for a queued relocation.
    fn commit_stream_relocation(&mut self, file: WorkingFile, mutation: &MutationRecord) -> (result:
        Result<(), JournalError>)
        ensures
            stepped(
                stream_relocation_committed(old(self)@, file, *mutation),
                result,
                old(self)@,
                final(self)@,
            ),
    {
        let old = match self.working.get(file.id) {
            Some(old) => old.clone(),
            None => {
                return Err(JournalError::Storage);
            },
        };
        let predecessor: Option<Id> = match mutation.base {
            Some(base) => Some(base.predecessor),
            None => None,
        };
        if old.dirty || !same_id(old.latest, file.latest) || !old.scope.same(&file.scope)
            || old.node.id != file.node.id || old.generation == u64::MAX || old.generation + 1
            != file.generation || !same_id(predecessor, old.latest)
            || !mutation.request.scope.same(&old.scope) || !same_id(
            mutation.working_file,
            Some(old.id),
        ) {
            return Err(JournalError::Stale);
        }
        match &mutation.request.intent {
            MutationIntent::Relocate { before, parent, name } => {
                if !before.same(&old.mutation_source()) || !optional_is(
                    &file.node.parent_id,
                    parent.as_str(),
                ) || file.node.name != *name || self.stream_conflicts(&file).1 {
                    return Err(JournalError::Stale);
                }
            },
            _ => {
                return Err(JournalError::Intent);
            },
        }
        let mut file = file;
        file.latest = Some(mutation.id);
        self.save_working(&file)
    }

    /// Relocates a saved stream under a given operation.
    fn relocate_saved(
        &mut self,
        operation: Id,
        id: Id,
        parent: String,
        name: String,
        named: bool,
        valid: bool,
    ) -> (result: Result<MutationRecord, JournalError>)
        ensures
            answered(
                stream_relocated(old(self)@, operation, id, parent, name, named, valid),
                result,
                old(self)@,
                final(self)@,
            ),
    {
        if !named {
            return Err(JournalError::Intent);
        }
        let mut file = self.working_file(id)?;
        if file.node.id == parent {
            return Err(JournalError::Intent);
        }
        let request = MutationRequest {
            scope: file.scope.clone(),
            intent: MutationIntent::Relocate {
                before: file.mutation_source(),
                parent: parent.clone(),
                name: name.clone(),
            },
        };
        let base = self.base_for(file.latest, &request, valid)?;
        if file.generation == u64::MAX {
            return Err(JournalError::Quota);
        }
        file.node.parent_id = Some(parent);
        file.node.name = name;
        file.generation = file.generation + 1;
        let none: Vec<Id> = Vec::new();
        let mut tx = self.copy();
        let record = tx.enqueue_mutation_transaction(operation, request, base, &none, Some(id))?;
        tx.commit_stream_relocation(file, &record)?;
        *self = tx;
        Ok(record)
    }

    /// The form of the request on which a stream's relocation needs a verdict. `size` is
    /// the length of its bytes, where they have to be saved first.
    pub fn relocation_form(&self, id: Id, size: u64, parent: &String, name: &String) -> (result:
        Result<MutationRequest, JournalError>)
        ensures
            match result {
                Ok(form) => self@.working.contains_key(id) && {
                    let file = self@.working[id];
                    let request = request_behind_save(file, size, *parent, *name);
                    if file.dirty || file.latest is Some {
                        previewed(request, form)
                    } else {
                        form == request
                    }
                },
                Err(error) => error == JournalError::Missing && !self@.working.contains_key(id),
            },
    {
        let file = self.working_file(id)?;
        let before = if file.dirty {
            let mut node = file.node.clone();
            node.size = size;
            node
        } else {
            file.mutation_source()
        };
        let request = MutationRequest {
            scope: file.scope.clone(),
            intent: MutationIntent::Relocate {
                before,
                parent: parent.clone(),
                name: name.clone(),
            },
        };
        if file.dirty || file.latest.is_some() {
            Ok(preview(&request))
        } else {
            Ok(request)
        }
    }

    /// Relocates a stream under given identities, behind the save of its unsaved bytes.
    pub fn relocate_working_as(
        &mut self,
        upload: Id,
        operation: Id,
        id: Id,
        parent: String,
        name: String,
        named: bool,
        savable: bool,
        usage: Usage,
        sealed: Sealed,
        valid: bool,
    ) -> (result: Result<MutationRecord, JournalError>)
        ensures
            relocating(
                old(self)@,
                upload,
                operation,
                id,
                parent,
                name,
                named,
                savable,
                usage,
                sealed,
                valid,
                result,
                final(self)@,
            ),
    {
        if !named {
            return Err(JournalError::Intent);
        }
        let file = self.working_file(id)?;
        if file.node.id == parent {
            return Err(JournalError::Intent);
        }
        if file.dirty {
            let ghost start = self@;
            let saved = self.seal_working_as(upload, id, savable, usage, sealed);
            proof {
                assert(sealing(start, upload, id, savable, usage, sealed, saved, self@));
            }
            saved?;
        }
        self.relocate_saved(operation, id, parent, name, named, valid)
    }

    /// Relocates a stream together with its ordered provider request. A dirty stream is
    /// saved first: `savable` is the verdict on the intent of `seal_plan`, `sealed` its
    /// sealed content, which a clean stream does not need. `named` is the verdict on the
    /// new name and parent, `valid` that on `relocation_form`.
    pub fn relocate_working(
        &mut self,
        id: Id,
        parent: String,
        name: String,
        named: bool,
        savable: bool,
        usage: Usage,
        sealed: Sealed,
        valid: bool,
    ) -> (result: Result<MutationRecord, JournalError>)
        ensures
            exists|upload: Id, operation: Id| #[trigger]
                relocating(
                    old(self)@,
                    upload,
                    operation,
                    id,
                    parent,
                    name,
                    named,
                    savable,
                    usage,
                    sealed,
                    valid,
                    result,
                    final(self)@,
                ),
    {
        let upload = fresh_id();
        let operation = fresh_id();
        self.relocate_working_as(
            upload,
            operation,
            id,
            parent,
            name,
            named,
            savable,
            usage,
            sealed,
            valid,
        )
    }

    /// The stream that moves with a local file, where it has one, unless the file is not
    /// relocated.
    pub fn check_relocation(&self, id: Id, revision: u64) -> (result: Result<
        Option<Id>,
        JournalError,
    >)
        ensures
            match relocation_refusal(self@, id, revision) {
                Some(error) => result == Err::<Option<Id>, JournalError>(error),
                None => result == Ok::<Option<Id>, JournalError>(self@.objects[id].working_file),
            },
    {
        let object = self.namespace_object(id)?;
        if object.revision != revision || object.follows_remote || object.unlinked {
            return Err(JournalError::Stale);
        }
        if object.node.kind != NodeKind::File {
            return Err(JournalError::Intent);
        }
        Ok(object.working_file)
    }

    /// Relocates a local file under given identities.
    pub fn relocate_file_as(
        &mut self,
        upload: Id,
        operation: Id,
        id: Id,
        revision: u64,
        parent: String,
        name: String,
        named: bool,
        savable: bool,
        usage: Usage,
        sealed: Sealed,
        valid: bool,
    ) -> (result: Result<MutationRecord, JournalError>)
        ensures
            relocating_file(
                old(self)@,
                upload,
                operation,
                id,
                revision,
                parent,
                name,
                named,
                savable,
                usage,
                sealed,
                valid,
                result,
                final(self)@,
            ),
    {
        if let Some(stream) = self.check_relocation(id, revision)? {
            return self.relocate_working_as(
                upload,
                operation,
                stream,
                parent,
                name,
                named,
                savable,
                usage,
                sealed,
                valid,
            );
        }
        let mut object = self.namespace_object(id)?;
        let before = match &object.remote {
            Some(remote) => remote.clone(),
            None => {
                return Err(JournalError::Corrupt);
            },
        };
        let request = MutationRequest {
            scope: object.scope.clone(),
            intent: MutationIntent::Relocate {
                before,
                parent: parent.clone(),
                name: name.clone(),
            },
        };
        let base = self.base_for(object.latest, &request, valid)?;
        object.node.parent_id = Some(parent);
        object.node.name = name;
        next_revision(&mut object)?;
        let none: Vec<Id> = Vec::new();
        let mut tx = self.copy();
        let record = tx.enqueue_mutation_transaction(operation, request, base, &none, None)?;
        tx.commit_object_relocation(object, &record)?;
        *self = tx;
        Ok(record)
    }

    /// Relocates a local file: its metadata alone, or its stream too, whose unsaved bytes
    /// are saved first. The caller checks the provider's destination listing; local
    /// entries and the conditional provider call refuse collisions.
    pub fn relocate_namespace_file(
        &mut self,
        id: Id,
        revision: u64,
        parent: String,
        name: String,
        named: bool,
        savable: bool,
        usage: Usage,
        sealed: Sealed,
        valid: bool,
    ) -> (result: Result<MutationRecord, JournalError>)
        ensures
            exists|upload: Id, operation: Id| #[trigger]
                relocating_file(
                    old(self)@,
                    upload,
                    operation,
                    id,
                    revision,
                    parent,
                    name,
                    named,
                    savable,
                    usage,
                    sealed,
                    valid,
                    result,
                    final(self)@,
                ),
    {
        let upload = fresh_id();
        let operation = fresh_id();
        self.relocate_file_as(
            upload,
            operation,
            id,
            revision,
            parent,
            name,
            named,
            savable,
            usage,
            sealed,
            valid,
        )
    }

    /// Checks a stream's length after a restart.
    pub fn recover_stream(&mut self, id: Id, length: u64) -> (result: Result<(), JournalError>)
        ensures
            stepped(stream_recovered(old(self)@, id, length), result, old(self)@, final(self)@),
    {
        let mut file = self.working_file(id)?;
        if length == file.node.size {
            return Ok(());
        }
        if !file.dirty {
            return Err(JournalError::Corrupt);
        }
        file.node.size = length;
        self.save_working(&file)
    }
}

/// Unsaved bytes are never left behind: where a stream with unsaved bytes is relocated,
/// the relocation follows the upload that saves them, and the stream is clean under its
/// new name.
pub proof fn relocations_follow_the_save_of_unsaved_bytes(
    journal: JournalView,
    upload: Id,
    operation: Id,
    id: Id,
    parent: String,
    name: String,
    named: bool,
    savable: bool,
    usage: Usage,
    sealed: Sealed,
    valid: bool,
    record: MutationRecord,
    after: JournalView,
)
    requires
        journal.working.contains_key(id),
        journal.working[id].id == id,
        journal.working[id].dirty,
        relocating(
            journal,
            upload,
            operation,
            id,
            parent,
            name,
            named,
            savable,
            usage,
            sealed,
            valid,
            Ok(record),
            after,
        ),
    ensures
        after.uploads.contains_key(upload),
        after.uploads[upload].sha256 == sealed.sha256,
        after.uploads[upload].size == sealed.size,
        after.uploads[upload].working_file == Some(id),
        record.id == operation,
        record.base == Some(WriteBase { predecessor: upload, resolved: false }),
        after.uploads[upload].sequence < record.sequence,
        after.working[id].latest == Some(operation),
        !after.working[id].dirty,
        after.working[id].node.name == name,
        after.working[id].node.parent_id == Some(parent),
        after.working[id].node.size == sealed.size,
{
    let (saved, middle) = choose|
        saved: Result<Option<UploadRecord>, JournalError>,
        middle: JournalView,
    | #[trigger]
        sealing(journal, upload, id, savable, usage, sealed, saved, middle) && match saved {
            Err(_) => false,
            Ok(_) => answered(
                stream_relocated(middle, operation, id, parent, name, named, valid),
                Ok(record),
                middle,
                after,
            ),
        };
    let intent = choose|intent: UploadIntent| #[trigger]
        seals_with(journal, journal.working[id], intent) && answered(
            stream_sealed(journal, upload, id, intent, savable, usage, sealed),
            saved,
            journal,
            middle,
        );
    assert(middle.working[id].latest == Some(upload));
    assert(middle.uploads.contains_key(upload));
    assert(middle.uploads[upload].sequence == middle.last_sequence);
    assert(record.sequence == middle.last_sequence + 1);
}

} // verus!
