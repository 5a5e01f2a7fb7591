//! Atomic local takeover of a path, and conditional publication on the destination's
//! identity.
use crate::journal::generations::{
    answered, based, follow_refusal, follows, form_to_check, successor_refusal, to_check,
};
use crate::journal::listing::{chosen, listing, select};
use crate::journal::mutations::{mutation_queued, new_mutation, pending_mutation};
use crate::journal::namespace::{bumped, next_revision, save_step, COUNTER_LIMIT, OBJECT_LIMIT};
use crate::journal::observation::same_id;
use crate::journal::queue::{barrier_refusal, stepped};
use crate::journal::records::{
    JournalError, JournalView, NamespaceObject, ReplacementRecord, UploadJournal,
    UploadPreparation, UploadRecord, UploadState, WorkingFile, WriteBase,
};
use crate::journal::recovery::needs_gate;
use crate::journal::sealing::{Sealed, Usage};
use crate::journal::unlinked::{in_step, is_in_step, stream_of, READER_PAGE};
use crate::journal::uploads::{generation_enqueued, new_upload, shorter, upload_queued};
use crate::model::{
    content_revision, copy_node, Id, MutationIntent, MutationRequest, Node, NodeKind, Scope,
    UploadIntent,
};
use crate::outside::{fresh_id, id_text, write_id};
use crate::text::copy_optional;
use vstd::prelude::*;

verus! {

/// Both sides of a replacement as it starts from them.
#[derive(Debug)]
pub struct ReplacementPlan {
    pub source: NamespaceObject,
    pub victim: NamespaceObject,
    pub source_working: Option<WorkingFile>,
    pub victim_working: Option<WorkingFile>,
    pub cleanup: MutationRequest,
}

/// The object is a plain file with a name of its own and an active owner.
pub open spec fn side_refusal(object: NamespaceObject) -> Option<JournalError> {
    if object.unlinked || object.follows_remote || !object.remote_owned {
        Some(JournalError::Stale)
    } else if object.node.kind != NodeKind::File || object.node.target is Some {
        Some(JournalError::Intent)
    } else {
        None
    }
}

/// The stream, where there is one, presents exactly what the object does.
pub open spec fn step_kept(stream: Option<WorkingFile>, object: NamespaceObject) -> bool {
    stream is Some ==> in_step(stream->0, object)
}

/// What the replaced file's content is published over: the plan behind its latest
/// operation, or its provider version.
pub open spec fn publishes_over(journal: JournalView, victim: NamespaceObject, intent: UploadIntent) -> bool {
    match victim.latest {
        Some(predecessor) => exists|scope: Scope| #[trigger]
            follows(journal, predecessor, scope, intent),
        None => victim.remote is Some && victim.remote->0.etag is Some && intent == (
        UploadIntent::Replace {
            item: victim.remote->0.id,
            expected_etag: victim.remote->0.etag->0,
        }),
    }
}

/// Why nothing can be published over a file.
pub open spec fn over_refusal(journal: JournalView, victim: NamespaceObject) -> Option<JournalError> {
    match victim.latest {
        Some(predecessor) => follow_refusal(journal, predecessor),
        None => match victim.remote {
            None => Some(JournalError::Stale),
            Some(remote) => if remote.etag is None {
                Some(JournalError::Intent)
            } else {
                None
            },
        },
    }
}

/// The removal of the source's old provider item.
pub open spec fn cleanup_request(source: NamespaceObject) -> Result<MutationRequest, JournalError> {
    if source.latest is None && source.remote is None {
        Err(JournalError::Stale)
    } else {
        Ok(
            MutationRequest {
                scope: source.scope,
                intent: MutationIntent::RemoveFile {
                    before: if source.latest is Some {
                        source.node
                    } else {
                        source.remote->0
                    },
                },
            },
        )
    }
}

/// Both sides of a replacement, where they allow one. `fetched` says that the source must
/// have its bytes here.
pub open spec fn planned_replacement(
    journal: JournalView,
    source: Id,
    source_revision: u64,
    victim: Id,
    victim_revision: u64,
    fetched: bool,
) -> Result<ReplacementPlan, JournalError> {
    if !journal.objects.contains_key(source) || !journal.objects.contains_key(victim) {
        Err(JournalError::Missing)
    } else {
        let from = journal.objects[source];
        let over = journal.objects[victim];
        if from.scope@ != over.scope@ || from.scope.account@ != journal.account {
            Err(JournalError::Account)
        } else if from.id == over.id || from.revision != source_revision || over.revision
            != victim_revision {
            Err(JournalError::Stale)
        } else if side_refusal(from) is Some {
            Err(side_refusal(from)->0)
        } else if side_refusal(over) is Some {
            Err(side_refusal(over)->0)
        } else if journal.objects.len() >= OBJECT_LIMIT {
            Err(JournalError::Quota)
        } else if fetched && from.working_file is None {
            Err(JournalError::Intent)
        } else {
            match stream_of(journal, from) {
                Err(error) => Err(error),
                Ok(source_working) => match stream_of(journal, over) {
                    Err(error) => Err(error),
                    Ok(victim_working) => if !step_kept(source_working, from) || !step_kept(
                        victim_working,
                        over,
                    ) {
                        Err(JournalError::Stale)
                    } else {
                        match over_refusal(journal, over) {
                            Some(error) => Err(error),
                            None => match cleanup_request(from) {
                                Err(error) => Err(error),
                                Ok(cleanup) => Ok(
                                    ReplacementPlan {
                                        source: from,
                                        victim: over,
                                        source_working,
                                        victim_working,
                                        cleanup,
                                    },
                                ),
                            },
                        }
                    },
                },
            }
        }
    }
}

/// The predecessor that a base names.
pub open spec fn predecessor_of(base: Option<WriteBase>) -> Option<Id> {
    match base {
        Some(base) => Some(base.predecessor),
        None => None,
    }
}

/// The identities that a replacement creates.
pub struct ReplacementIds {
    pub upload: Id,
    pub cleanup: Id,
    pub object: Id,
}

/// A stream under a name that another gave up, or without one.
pub open spec fn next_generation(file: WorkingFile) -> Result<WorkingFile, JournalError> {
    if file.generation == u64::MAX {
        Err(JournalError::Quota)
    } else {
        Ok(WorkingFile { generation: (file.generation + 1) as u64, ..file })
    }
}

/// The victim gives its name up.
pub open spec fn victim_released(
    journal: JournalView,
    victim: NamespaceObject,
    working: Option<WorkingFile>,
) -> Result<JournalView, JournalError> {
    match bumped(NamespaceObject { unlinked: true, ..victim }) {
        Err(error) => Err(error),
        Ok(victim) => {
            let kept = match working {
                None => Ok(journal),
                Some(file) => match next_generation(WorkingFile { unlinked: true, ..file }) {
                    Err(error) => Err(error),
                    Ok(file) => if journal.working.contains_key(file.id) {
                        Ok(JournalView { working: journal.working.insert(file.id, file), ..journal })
                    } else {
                        Err(JournalError::Stale)
                    },
                },
            };
            match kept {
                Err(error) => Err(error),
                Ok(state) => save_step(state, victim),
            }
        },
    }
}

/// The source takes the victim's name for its own identity.
pub open spec fn source_renamed(
    journal: JournalView,
    source: NamespaceObject,
    working: Option<WorkingFile>,
    victim: NamespaceObject,
    upload: Id,
) -> Result<JournalView, JournalError> {
    let renamed = match working {
        None => Ok(
            (
                journal,
                Node {
                    name: victim.node.name,
                    parent_id: victim.node.parent_id,
                    ..source.node
                },
            ),
        ),
        Some(file) => match next_generation(
            WorkingFile {
                node: Node {
                    name: victim.node.name,
                    parent_id: victim.node.parent_id,
                    ..file.node
                },
                latest: Some(upload),
                ..file
            },
        ) {
            Err(error) => Err(error),
            Ok(file) => if journal.working.contains_key(file.id) {
                Ok(
                    (
                        JournalView { working: journal.working.insert(file.id, file), ..journal },
                        file.node,
                    ),
                )
            } else {
                Err(JournalError::Stale)
            },
        },
    };
    match renamed {
        Err(error) => Err(error),
        Ok((state, node)) => match bumped(
            NamespaceObject { node, latest: Some(upload), ..source },
        ) {
            Err(error) => Err(error),
            Ok(source) => save_step(state, source),
        },
    }
}

/// The object that will own the source's old provider item. Its place is reserved
/// now: a confirmed upload must not fail later for want of it.
pub open spec fn cleanup_object(source: NamespaceObject, id: Id, identity: String, cleanup: Id) -> NamespaceObject {
    NamespaceObject {
        id,
        node: Node { id: identity, ..source.node },
        working_file: None,
        latest: Some(cleanup),
        revision: 0,
        unlinked: true,
        remote_owned: false,
        ..source
    }
}

/// The queued publication takes the name, releases the victim and queues the cleanup,
/// all at once.
pub open spec fn replacement_committed(
    journal: JournalView,
    plan: ReplacementPlan,
    cleanup_base: Option<WriteBase>,
    preserve: bool,
    upload: UploadRecord,
    ids: ReplacementIds,
    identity: String,
) -> Result<(JournalView, ReplacementRecord), JournalError> {
    if !journal.objects.contains_key(plan.source.id) || !journal.objects.contains_key(
        plan.victim.id,
    ) {
        Err(JournalError::Missing)
    } else {
        let source = journal.objects[plan.source.id];
        let victim = journal.objects[plan.victim.id];
        let size = match plan.source_working {
            Some(file) => file.node.size,
            None => plan.source.node.size,
        };
        if source.revision != plan.source.revision || victim.revision != plan.victim.revision
            || source.latest != plan.source.latest || victim.latest != plan.victim.latest
            || source.working_file != plan.source.working_file || upload.size != size
            || predecessor_of(upload.base) != victim.latest {
            Err(JournalError::Stale)
        } else {
            match mutation_queued(
                journal,
                new_mutation(ids.cleanup, plan.cleanup, cleanup_base, None, true),
                seq![upload.id],
            ) {
                Err(error) => Err(error),
                Ok((queued, _)) => match victim_released(queued, victim, plan.victim_working) {
                    Err(error) => Err(error),
                    Ok(released) => match source_renamed(
                        released,
                        source,
                        plan.source_working,
                        victim,
                        upload.id,
                    ) {
                        Err(error) => Err(error),
                        Ok(renamed) => match save_step(
                            renamed,
                            cleanup_object(plan.source, ids.object, identity, ids.cleanup),
                        ) {
                            Err(error) => Err(error),
                            Ok(state) => if state.replacements.contains_key(upload.id) {
                                Err(JournalError::Storage)
                            } else {
                                let record = ReplacementRecord {
                                    id: upload.id,
                                    source: source.id,
                                    victim: victim.id,
                                    cleanup: ids.cleanup,
                                    cleanup_object: ids.object,
                                    local_ready: !preserve,
                                    remote_applied: false,
                                };
                                Ok(
                                    (
                                        JournalView {
                                            replacements: state.replacements.insert(
                                                upload.id,
                                                record,
                                            ),
                                            ..state
                                        },
                                        record,
                                    ),
                                )
                            },
                        },
                    },
                },
            }
        }
    }
}

/// What publication waits for: the source's latest operation.
pub open spec fn publication_prerequisites(source: NamespaceObject) -> Seq<Id> {
    match source.latest {
        Some(latest) => seq![latest],
        None => Seq::empty(),
    }
}

/// The base of the publication: the victim's latest operation.
pub open spec fn publication_base(victim: NamespaceObject) -> Option<WriteBase> {
    match victim.latest {
        Some(predecessor) => Some(WriteBase { predecessor, resolved: false }),
        None => None,
    }
}

/// A source with a working stream is sealed and published over the victim. `valid` is
/// the verdict on the intent, `clean` that on the cleanup.
pub open spec fn stream_replaced(
    journal: JournalView,
    plan: ReplacementPlan,
    intent: UploadIntent,
    valid: bool,
    clean: bool,
    preserve: bool,
    usage: Usage,
    sealed: Sealed,
    ids: ReplacementIds,
    identity: String,
) -> Result<(JournalView, ReplacementRecord), JournalError> {
    match based(journal, plan.source.latest, plan.cleanup, clean) {
        Err(error) => Err(error),
        Ok(cleanup_base) => match plan.source_working {
            None => Err(JournalError::Intent),
            Some(file) => if sealed.size != file.node.size {
                Err(JournalError::Corrupt)
            } else {
                match generation_enqueued(
                    journal,
                    ids.upload,
                    plan.source.scope,
                    intent,
                    valid,
                    publication_base(plan.victim),
                    publication_prerequisites(plan.source),
                    plan.source.working_file,
                    usage,
                    sealed,
                ) {
                    Err(error) => Err(error),
                    Ok((queued, upload)) => replacement_committed(
                        queued,
                        plan,
                        cleanup_base,
                        preserve,
                        upload,
                        ids,
                        identity,
                    ),
                }
            },
        },
    }
}

/// What has to be fetched before an unchanged source can be published.
pub open spec fn preparation_for(source: NamespaceObject, operation: Id) -> UploadPreparation {
    UploadPreparation {
        operation,
        source: source.id,
        scope: source.scope,
        source_base: source.latest,
        remote: if source.latest is None {
            source.remote
        } else {
            None
        },
        sha256: None,
    }
}

/// The preparation knows neither a receipt nor a version to fetch.
pub open spec fn unpreparable(preparation: UploadPreparation) -> bool {
    preparation.source_base is None && (preparation.remote is None || content_revision(
        preparation.remote->0@,
    ) is None)
}

/// A source without local bytes takes the name at once; its bytes are fetched before
/// the queued publication can go on.
pub open spec fn source_prepared(
    journal: JournalView,
    plan: ReplacementPlan,
    intent: UploadIntent,
    valid: bool,
    clean: bool,
    preserve: bool,
    empty: String,
    ids: ReplacementIds,
    identity: String,
) -> Result<(JournalView, ReplacementRecord), JournalError> {
    match based(journal, plan.source.latest, plan.cleanup, clean) {
        Err(error) => Err(error),
        Ok(cleanup_base) => {
            let base = publication_base(plan.victim);
            let successor = match base {
                Some(base) => successor_refusal(journal, base.predecessor),
                None => None,
            };
            let prerequisites = publication_prerequisites(plan.source);
            let preparation = preparation_for(plan.source, ids.upload);
            if plan.source.scope.account@ != journal.account {
                Err(JournalError::Account)
            } else if plan.source.working_file is Some || plan.source.node.size > COUNTER_LIMIT
                || !valid {
                Err(JournalError::Intent)
            } else if successor is Some {
                Err(successor->0)
            } else if barrier_refusal(journal, plan.source.scope@, prerequisites) is Some {
                Err(barrier_refusal(journal, plan.source.scope@, prerequisites)->0)
            } else if unpreparable(preparation) {
                Err(JournalError::Intent)
            } else {
                match upload_queued(
                    journal,
                    new_upload(
                        ids.upload,
                        plan.source.scope,
                        intent,
                        UploadState::Preparing,
                        Sealed { size: plan.source.node.size, sha256: empty },
                        base,
                        None,
                    ),
                    prerequisites,
                ) {
                    Err(error) => Err(error),
                    Ok((queued, upload)) => if queued.preparations.contains_key(ids.upload) {
                        Err(JournalError::Storage)
                    } else {
                        replacement_committed(
                            JournalView {
                                preparations: queued.preparations.insert(ids.upload, preparation),
                                ..queued
                            },
                            plan,
                            cleanup_base,
                            preserve,
                            upload,
                            ids,
                            identity,
                        )
                    },
                }
            }
        },
    }
}

/// Uploads behind a place whose replacement waits for its readers.
pub open spec fn waiting_replacements(journal: JournalView, after: u64) -> spec_fn(Id, UploadRecord) -> bool {
    |id: Id, record: UploadRecord|
        record.sequence > after && journal.replacements.contains_key(id)
            && !journal.replacements[id].local_ready
}

/// The publication has not begun: its bytes are still captured, or it is to be sent or
/// verified.
pub open spec fn awaits_publication(state: UploadState) -> bool {
    state == UploadState::Preparing || state == UploadState::Pending || state
        == UploadState::VerifyRequired
}

/// Uploads whose replacement waits for readers of an earlier process. A source that is
/// still to be fetched keeps its gate: the new process may ask for its remote bytes.
pub open spec fn outlived_readers(journal: JournalView) -> spec_fn(Id, UploadRecord) -> bool {
    |id: Id, record: UploadRecord|
        record.sequence > 0 && journal.replacements.contains_key(id)
            && !journal.replacements[id].local_ready && !needs_gate(journal, id)
}

/// The readers of a replaced file are local or gone.
pub open spec fn replacement_released(journal: JournalView, id: Id) -> Result<
    JournalView,
    JournalError,
> {
    if !journal.replacements.contains_key(id) {
        Err(JournalError::Missing)
    } else {
        let record = journal.replacements[id];
        if record.local_ready {
            Ok(journal)
        } else if !journal.objects.contains_key(record.victim) {
            Err(JournalError::Missing)
        } else if !journal.objects[record.victim].unlinked {
            Err(JournalError::Corrupt)
        } else if !journal.uploads.contains_key(id) {
            Err(JournalError::Missing)
        } else if !awaits_publication(journal.uploads[id].state) {
            Err(JournalError::Corrupt)
        } else {
            Ok(
                JournalView {
                    replacements: journal.replacements.insert(
                        id,
                        ReplacementRecord { local_ready: true, ..record },
                    ),
                    ..journal
                },
            )
        }
    }
}

/// The replacements of some uploads are released, one after the other, up to the
/// first that refuses.
pub open spec fn replacements_released_all(journal: JournalView, rows: Seq<(u64, Id)>) -> (
    JournalView,
    Option<JournalError>,
)
    decreases rows.len(),
{
    if rows.len() == 0 {
        (journal, None)
    } else {
        match replacement_released(journal, rows[0].1) {
            Err(error) => (journal, Some(error)),
            Ok(state) => replacements_released_all(state, rows.drop_first()),
        }
    }
}

impl UploadJournal {
    /// Both sides of a replacement, where they allow one. `fetched` says that the source
    /// must have its bytes here.
    pub fn plan_replacement(
        &self,
        source: Id,
        source_revision: u64,
        victim: Id,
        victim_revision: u64,
        fetched: bool,
    ) -> (result: Result<ReplacementPlan, JournalError>)
        ensures
            result == planned_replacement(
                self@,
                source,
                source_revision,
                victim,
                victim_revision,
                fetched,
            ),
    {
        let from = self.namespace_object(source)?;
        let over = self.namespace_object(victim)?;
        if !from.scope.same(&over.scope) || from.scope.account != self.account {
            return Err(JournalError::Account);
        }
        if from.id == over.id || from.revision != source_revision || over.revision
            != victim_revision {
            return Err(JournalError::Stale);
        }
        check_side(&from)?;
        check_side(&over)?;
        if self.objects.len() >= OBJECT_LIMIT {
            return Err(JournalError::Quota);
        }
        if fetched && from.working_file.is_none() {
            return Err(JournalError::Intent);
        }
        let source_working = self.object_stream(&from)?;
        let victim_working = self.object_stream(&over)?;
        if let Some(file) = &source_working {
            if !is_in_step(file, &from) {
                return Err(JournalError::Stale);
            }
        }
        if let Some(file) = &victim_working {
            if !is_in_step(file, &over) {
                return Err(JournalError::Stale);
            }
        }
        match over.latest {
            Some(predecessor) => {
                self.upload_intent_after(predecessor)?;
            },
            None => match &over.remote {
                Some(remote) => {
                    if remote.etag.is_none() {
                        return Err(JournalError::Intent);
                    }
                },
                None => {
                    return Err(JournalError::Stale);
                },
            },
        }
        let before = if from.latest.is_some() {
            from.node.clone()
        } else {
            match &from.remote {
                Some(remote) => remote.clone(),
                None => {
                    return Err(JournalError::Stale);
                },
            }
        };
        let cleanup = MutationRequest {
            scope: from.scope.clone(),
            intent: MutationIntent::RemoveFile { before },
        };
        Ok(ReplacementPlan { source: from, victim: over, source_working, victim_working, cleanup })
    }

    /// What the content is published over.
    pub fn replacement_intent(&self, plan: &ReplacementPlan) -> (result: Result<
        UploadIntent,
        JournalError,
    >)
        ensures
            match result {
                Ok(intent) => over_refusal(self@, plan.victim) is None && publishes_over(
                    self@,
                    plan.victim,
                    intent,
                ),
                Err(error) => over_refusal(self@, plan.victim) == Some(error),
            },
    {
        match plan.victim.latest {
            Some(predecessor) => {
                let (scope, intent) = self.upload_intent_after(predecessor)?;
                proof {
                    assert(follows(self@, predecessor, scope, intent));
                }
                Ok(intent)
            },
            None => match &plan.victim.remote {
                Some(remote) => match &remote.etag {
                    Some(tag) => Ok(
                        UploadIntent::Replace { item: remote.id.clone(), expected_etag: tag.clone() },
                    ),
                    None => Err(JournalError::Intent),
                },
                None => Err(JournalError::Stale),
            },
        }
    }

    /// Stores a stream that must exist.
    fn keep_stream(&mut self, file: WorkingFile) -> (result: Result<(), JournalError>)
        ensures
            stepped(
                if old(self)@.working.contains_key(file.id) {
                    Ok(
                        JournalView {
                            working: old(self)@.working.insert(file.id, file),
                            ..old(self)@
                        },
                    )
                } else {
                    Err(JournalError::Stale)
                },
                result,
                old(self)@,
                final(self)@,
            ),
    {
        if !self.working.has(file.id) {
            return Err(JournalError::Stale);
        }
        self.working.put(file.id, file);
        Ok(())
    }

    /// Lets the victim give its name up.
    fn release_victim(&mut self, victim: &NamespaceObject, working: &Option<WorkingFile>) -> (result:
        Result<(), JournalError>)
        ensures
            stepped(victim_released(old(self)@, *victim, *working), result, old(self)@, final(self)@),
    {
        let mut victim = victim.clone();
        victim.unlinked = true;
        next_revision(&mut victim)?;
        let mut tx = self.copy();
        if let Some(file) = working {
            let mut file = file.clone();
            if file.generation == u64::MAX {
                return Err(JournalError::Quota);
            }
            file.unlinked = true;
            file.generation = file.generation + 1;
            tx.keep_stream(file)?;
        }
        tx.save_object(victim)?;
        *self = tx;
        Ok(())
    }

    /// Lets the source take the victim's name.
    fn rename_source(
        &mut self,
        source: &NamespaceObject,
        working: &Option<WorkingFile>,
        victim: &NamespaceObject,
        upload: Id,
    ) -> (result: Result<(), JournalError>)
        ensures
            stepped(
                source_renamed(old(self)@, *source, *working, *victim, upload),
                result,
                old(self)@,
                final(self)@,
            ),
    {
        let mut source = source.clone();
        let mut tx = self.copy();
        match working {
            Some(file) => {
                let mut file = file.clone();
                if file.generation == u64::MAX {
                    return Err(JournalError::Quota);
                }
                file.node.name = victim.node.name.clone();
                file.node.parent_id = copy_optional(&victim.node.parent_id);
                file.latest = Some(upload);
                file.generation = file.generation + 1;
                source.node = file.node.clone();
                tx.keep_stream(file)?;
            },
            None => {
                source.node.name = victim.node.name.clone();
                source.node.parent_id = copy_optional(&victim.node.parent_id);
            },
        }
        source.latest = Some(upload);
        next_revision(&mut source)?;
        tx.save_object(source)?;
        *self = tx;
        Ok(())
    }

    /// Takes the name, releases the victim and queues the cleanup.
    fn commit_replacement(
        &mut self,
        plan: &ReplacementPlan,
        cleanup_base: Option<WriteBase>,
        preserve: bool,
        upload: &UploadRecord,
        ids: ReplacementIds,
        identity: String,
    ) -> (result: Result<ReplacementRecord, JournalError>)
        ensures
            answered(
                replacement_committed(
                    old(self)@,
                    *plan,
                    cleanup_base,
                    preserve,
                    *upload,
                    ids,
                    identity,
                ),
                result,
                old(self)@,
                final(self)@,
            ),
    {
        let source = self.namespace_object(plan.source.id)?;
        let victim = self.namespace_object(plan.victim.id)?;
        let size: u64 = match &plan.source_working {
            Some(file) => file.node.size,
            None => plan.source.node.size,
        };
        let predecessor: Option<Id> = match upload.base {
            Some(base) => Some(base.predecessor),
            None => None,
        };
        if source.revision != plan.source.revision || victim.revision != plan.victim.revision
            || !same_id(source.latest, plan.source.latest) || !same_id(
            victim.latest,
            plan.victim.latest,
        ) || !same_id(source.working_file, plan.source.working_file) || upload.size != size
            || !same_id(predecessor, victim.latest) {
            return Err(JournalError::Stale);
        }
        let cleanup = pending_mutation(ids.cleanup, plan.cleanup.clone(), cleanup_base, None, true);
        let mut after: Vec<Id> = Vec::new();
        after.push(upload.id);
        proof {
            assert(after@ =~= seq![upload.id]);
        }
        let mut tx = self.copy();
        tx.queue_mutation(cleanup, &after)?;
        tx.release_victim(&victim, &plan.victim_working)?;
        tx.rename_source(&source, &plan.source_working, &victim, upload.id)?;
        let mut left = plan.source.clone();
        left.id = ids.object;
        left.node.id = identity;
        left.working_file = None;
        left.latest = Some(ids.cleanup);
        left.revision = 0;
        left.unlinked = true;
        left.remote_owned = false;
        tx.save_object(left)?;
        if tx.replacements.has(upload.id) {
            return Err(JournalError::Storage);
        }
        let record = ReplacementRecord {
            id: upload.id,
            source: source.id,
            victim: victim.id,
            cleanup: ids.cleanup,
            cleanup_object: ids.object,
            local_ready: !preserve,
            remote_applied: false,
        };
        tx.replacements.put(upload.id, record);
        *self = tx;
        Ok(record)
    }

    /// Publishes a sealed source over the victim, under given identities.
    pub fn replace_stream(
        &mut self,
        plan: &ReplacementPlan,
        intent: UploadIntent,
        valid: bool,
        clean: bool,
        preserve: bool,
        usage: Usage,
        sealed: Sealed,
        ids: ReplacementIds,
        identity: String,
    ) -> (result: Result<ReplacementRecord, JournalError>)
        ensures
            answered(
                stream_replaced(
                    old(self)@,
                    *plan,
                    intent,
                    valid,
                    clean,
                    preserve,
                    usage,
                    sealed,
                    ids,
                    identity,
                ),
                result,
                old(self)@,
                final(self)@,
            ),
    {
        let cleanup_base = self.base_for(plan.source.latest, &plan.cleanup, clean)?;
        match &plan.source_working {
            Some(file) => {
                if sealed.size != file.node.size {
                    return Err(JournalError::Corrupt);
                }
            },
            None => {
                return Err(JournalError::Intent);
            },
        }
        let base = match plan.victim.latest {
            Some(predecessor) => Some(WriteBase { predecessor, resolved: false }),
            None => None,
        };
        let mut after: Vec<Id> = Vec::new();
        if let Some(latest) = plan.source.latest {
            after.push(latest);
        }
        proof {
            assert(after@ =~= publication_prerequisites(plan.source));
        }
        let mut tx = self.copy();
        let upload = tx.enqueue_generation(
            ids.upload,
            plan.source.scope.clone(),
            intent,
            valid,
            base,
            &after,
            plan.source.working_file,
            usage,
            sealed,
        )?;
        let record = tx.commit_replacement(plan, cleanup_base, preserve, &upload, ids, identity)?;
        *self = tx;
        Ok(record)
    }

    /// Takes the name for a source without local bytes, under given identities.
    pub fn prepare_source(
        &mut self,
        plan: &ReplacementPlan,
        intent: UploadIntent,
        valid: bool,
        clean: bool,
        preserve: bool,
        ids: ReplacementIds,
        identity: String,
    ) -> (result: Result<ReplacementRecord, JournalError>)
        ensures
            exists|empty: String|
                empty@ == Seq::<char>::empty() && answered(
                    #[trigger] source_prepared(
                        old(self)@,
                        *plan,
                        intent,
                        valid,
                        clean,
                        preserve,
                        empty,
                        ids,
                        identity,
                    ),
                    result,
                    old(self)@,
                    final(self)@,
                ),
    {
        let empty = String::new();
        let ghost expected = source_prepared(
            self@,
            *plan,
            intent,
            valid,
            clean,
            preserve,
            empty,
            ids,
            identity,
        );
        let result = self.prepare_source_as(plan, intent, valid, clean, preserve, empty, ids, identity);
        proof {
            assert(answered(expected, result, old(self)@, self@));
        }
        result
    }

    /// Takes the name for a source without local bytes; `empty` is the digest that is
    /// not known yet.
    fn prepare_source_as(
        &mut self,
        plan: &ReplacementPlan,
        intent: UploadIntent,
        valid: bool,
        clean: bool,
        preserve: bool,
        empty: String,
        ids: ReplacementIds,
        identity: String,
    ) -> (result: Result<ReplacementRecord, JournalError>)
        ensures
            answered(
                source_prepared(
                    old(self)@,
                    *plan,
                    intent,
                    valid,
                    clean,
                    preserve,
                    empty,
                    ids,
                    identity,
                ),
                result,
                old(self)@,
                final(self)@,
            ),
    {
        let cleanup_base = self.base_for(plan.source.latest, &plan.cleanup, clean)?;
        if plan.source.scope.account != self.account {
            return Err(JournalError::Account);
        }
        if plan.source.working_file.is_some() || plan.source.node.size > COUNTER_LIMIT || !valid {
            return Err(JournalError::Intent);
        }
        let base = match plan.victim.latest {
            Some(predecessor) => Some(WriteBase { predecessor, resolved: false }),
            None => None,
        };
        if let Some(base) = base {
            self.ensure_successor_free(base.predecessor)?;
        }
        let mut after: Vec<Id> = Vec::new();
        if let Some(latest) = plan.source.latest {
            after.push(latest);
        }
        proof {
            assert(after@ =~= publication_prerequisites(plan.source));
        }
        self.validate_prerequisites(&plan.source.scope, &after)?;
        let remote = if plan.source.latest.is_none() {
            copy_node(&plan.source.remote)
        } else {
            None
        };
        let known = match &remote {
            Some(node) => node.has_content_revision(),
            None => false,
        };
        if plan.source.latest.is_none() && !known {
            return Err(JournalError::Intent);
        }
        let preparation = UploadPreparation {
            operation: ids.upload,
            source: plan.source.id,
            scope: plan.source.scope.clone(),
            source_base: plan.source.latest,
            remote,
            sha256: None,
        };
        let record = UploadRecord {
            id: ids.upload,
            sequence: 0,
            scope: plan.source.scope.clone(),
            intent,
            state: UploadState::Preparing,
            size: plan.source.node.size,
            sha256: empty,
            attempt: None,
            remote: None,
            base,
            working_file: None,
            session_key: None,
            transferred_bytes: 0,
            retry_at: 0,
            failed_attempts: 0,
        };
        let mut tx = self.copy();
        let upload = tx.queue_upload(record, &after)?;
        if tx.preparations.has(ids.upload) {
            return Err(JournalError::Storage);
        }
        tx.preparations.put(ids.upload, preparation);
        let record = tx.commit_replacement(plan, cleanup_base, preserve, &upload, ids, identity)?;
        *self = tx;
        Ok(record)
    }

    /// Takes the victim's name for the source's stable identity and queues its
    /// conditional publication and cleanup. The caller seals dirty streams first and
    /// establishes reader preservation; `sealed` is the source's sealed content,
    /// `valid` the verdict on `replacement_intent` and `clean` that on the cleanup.
    pub fn replace_namespace_file(
        &mut self,
        source: Id,
        source_revision: u64,
        victim: Id,
        victim_revision: u64,
        preserve: bool,
        valid: bool,
        clean: bool,
        usage: Usage,
        sealed: Sealed,
    ) -> (result: Result<ReplacementRecord, JournalError>)
        ensures
            match planned_replacement(
                old(self)@,
                source,
                source_revision,
                victim,
                victim_revision,
                true,
            ) {
                Err(error) => result == Err::<ReplacementRecord, JournalError>(error)
                    && final(self)@ == old(self)@,
                Ok(plan) => exists|intent: UploadIntent, ids: ReplacementIds, identity: String|
                    publishes_over(old(self)@, plan.victim, intent) && identity@ == "local-"@
                        + id_text(ids.object) && answered(
                        #[trigger] stream_replaced(
                            old(self)@,
                            plan,
                            intent,
                            valid,
                            clean,
                            preserve,
                            usage,
                            sealed,
                            ids,
                            identity,
                        ),
                        result,
                        old(self)@,
                        final(self)@,
                    ),
            },
    {
        let plan = self.plan_replacement(source, source_revision, victim, victim_revision, true)?;
        let intent = self.replacement_intent(&plan)?;
        let upload = fresh_id();
        let cleanup = fresh_id();
        let object = fresh_id();
        let mut identity = "local-".to_string();
        identity.append(write_id(object).as_str());
        self.replace_stream(
            &plan,
            intent,
            valid,
            clean,
            preserve,
            usage,
            sealed,
            ReplacementIds { upload, cleanup, object },
            identity,
        )
    }

    /// Takes the victim's name for a source whose bytes are still at the provider and
    /// queues their capture before the publication.
    pub fn replace_unfetched_file(
        &mut self,
        source: Id,
        source_revision: u64,
        victim: Id,
        victim_revision: u64,
        preserve: bool,
        valid: bool,
        clean: bool,
    ) -> (result: Result<ReplacementRecord, JournalError>)
        ensures
            match planned_replacement(
                old(self)@,
                source,
                source_revision,
                victim,
                victim_revision,
                false,
            ) {
                Err(error) => result == Err::<ReplacementRecord, JournalError>(error)
                    && final(self)@ == old(self)@,
                Ok(plan) => exists|
                    intent: UploadIntent,
                    empty: String,
                    ids: ReplacementIds,
                    identity: String,
                |
                    publishes_over(old(self)@, plan.victim, intent) && empty@ == Seq::<
                        char,
                    >::empty() && identity@ == "local-"@ + id_text(ids.object) && answered(
                        #[trigger] source_prepared(
                            old(self)@,
                            plan,
                            intent,
                            valid,
                            clean,
                            preserve,
                            empty,
                            ids,
                            identity,
                        ),
                        result,
                        old(self)@,
                        final(self)@,
                    ),
            },
    {
        let plan = self.plan_replacement(source, source_revision, victim, victim_revision, false)?;
        let intent = self.replacement_intent(&plan)?;
        let upload = fresh_id();
        let cleanup = fresh_id();
        let object = fresh_id();
        let mut identity = "local-".to_string();
        identity.append(write_id(object).as_str());
        self.prepare_source(
            &plan,
            intent,
            valid,
            clean,
            preserve,
            ReplacementIds { upload, cleanup, object },
            identity,
        )
    }

    /// The form of the cleanup on which a replacement needs a verdict.
    pub fn replacement_cleanup(&self, plan: &ReplacementPlan) -> (form: MutationRequest)
        ensures
            to_check(plan.source.latest, plan.cleanup, form),
    {
        form_to_check(plan.source.latest, &plan.cleanup)
    }

    /// The replacement with this identity.
    pub fn replacement(&self, id: Id) -> (result: Result<ReplacementRecord, JournalError>)
        ensures
            match result {
                Ok(record) => self@.replacements.contains_key(id) && record
                    == self@.replacements[id],
                Err(error) => error == JournalError::Missing && !self@.replacements.contains_key(id),
            },
    {
        match self.replacements.get(id) {
            Some(record) => Ok(*record),
            None => Err(JournalError::Missing),
        }
    }

    /// The uploads behind a place whose replacement waits for its readers, in order.
    fn waiting_takeovers(&self, after: u64) -> (rows: Vec<(u64, Id)>)
        ensures
            listing(self@.uploads, waiting_replacements(self@, after), rows@),
    {
        let keep = |id: Id, record: &UploadRecord| -> (kept: bool)
            ensures
                kept == (record.sequence > after && self@.replacements.contains_key(id)
                    && !self@.replacements[id].local_ready),
            {
                match self.replacements.get(id) {
                    Some(replacement) => record.sequence > after && !replacement.local_ready,
                    None => false,
                }
            };
        select(&self.uploads, keep, Ghost(waiting_replacements(self@, after)))
    }

    /// A page of the replacements that wait for readers, with their places.
    pub fn replacement_readers(&self, after: u64, limit: u32) -> (page: Vec<(u64, ReplacementRecord)>)
        ensures
            exists|rows: Seq<(u64, Id)>| #[trigger]
                listing(self@.uploads, waiting_replacements(self@, after), rows) && page@.len()
                    == shorter(
                    rows.len() as int,
                    shorter(limit as int, READER_PAGE as int),
                ) && forall|i: int|
                    0 <= i < page@.len() ==> #[trigger] page@[i] == (
                        rows[i].0,
                        self@.replacements[rows[i].1],
                    ),
    {
        let rows = self.waiting_takeovers(after);
        let size: usize = if limit < READER_PAGE {
            limit as usize
        } else {
            READER_PAGE as usize
        };
        let mut page: Vec<(u64, ReplacementRecord)> = Vec::new();
        let mut i: usize = 0;
        while i < rows.len() && i < size
            invariant
                i <= rows@.len(),
                i <= size,
                size == shorter(limit as int, READER_PAGE as int),
                page@.len() == i,
                listing(self@.uploads, waiting_replacements(self@, after), rows@),
                forall|j: int|
                    0 <= j < i ==> #[trigger] page@[j] == (
                        rows@[j].0,
                        self@.replacements[rows@[j].1],
                    ),
            decreases rows@.len() - i,
        {
            proof {
                assert(rows@.contains(rows@[i as int]));
            }
            if let Some(record) = self.replacements.get(rows[i].1) {
                page.push((rows[i].0, *record));
            }
            i = i + 1;
        }
        page
    }

    /// Lets a publication go on whose readers are local or gone.
    pub fn release_replacement_readers(&mut self, id: Id) -> (result: Result<(), JournalError>)
        ensures
            stepped(replacement_released(old(self)@, id), result, old(self)@, final(self)@),
    {
        let mut record = self.replacement(id)?;
        if record.local_ready {
            return Ok(());
        }
        if !self.namespace_object(record.victim)?.unlinked {
            return Err(JournalError::Corrupt);
        }
        let state = self.get(id)?.state;
        if state != UploadState::Preparing && state != UploadState::Pending && state
            != UploadState::VerifyRequired {
            return Err(JournalError::Corrupt);
        }
        record.local_ready = true;
        self.replacements.put(id, record);
        Ok(())
    }

    /// The uploads whose replacement waits for readers of an earlier process, in order.
    fn outlived_takeovers(&self) -> (rows: Vec<(u64, Id)>)
        ensures
            listing(self@.uploads, outlived_readers(self@), rows@),
    {
        let keep = |id: Id, record: &UploadRecord| -> (kept: bool)
            ensures
                kept == (record.sequence > 0 && self@.replacements.contains_key(id)
                    && !self@.replacements[id].local_ready && !needs_gate(self@, id)),
            {
                match self.replacements.get(id) {
                    Some(replacement) => record.sequence > 0 && !replacement.local_ready
                        && !self.wants_gate(id),
                    None => false,
                }
            };
        select(&self.uploads, keep, Ghost(outlived_readers(self@)))
    }

    /// Releases the readers of an earlier process after a restart. A source that is still
    /// to be fetched keeps its barrier.
    pub fn recover_replacement_readers(&mut self) -> (result: Result<(), JournalError>)
        ensures
            exists|rows: Seq<(u64, Id)>| #[trigger]
                listing(old(self)@.uploads, outlived_readers(old(self)@), rows) && {
                    let end = replacements_released_all(old(self)@, rows);
                    final(self)@ == end.0 && result == (match end.1 {
                        Some(error) => Err::<(), JournalError>(error),
                        None => Ok(()),
                    })
                },
    {
        let rows = self.outlived_takeovers();
        let ghost start = self@;
        let mut i: usize = 0;
        proof {
            assert(rows@.subrange(0, rows@.len() as int) =~= rows@);
        }
        while i < rows.len()
            invariant
                i <= rows@.len(),
                start == old(self)@,
                listing(start.uploads, outlived_readers(start), rows@),
                replacements_released_all(start, rows@) == replacements_released_all(
                    self@,
                    rows@.subrange(i as int, rows@.len() as int),
                ),
            decreases rows@.len() - i,
        {
            proof {
                let rest = rows@.subrange(i as int, rows@.len() as int);
                assert(rest[0] == rows@[i as int]);
                assert(rest.drop_first() =~= rows@.subrange(i + 1, rows@.len() as int));
            }
            self.release_replacement_readers(rows[i].1)?;
            i = i + 1;
        }
        Ok(())
    }
}

/// The readers of a replacement can be released.
pub open spec fn releasable(journal: JournalView, id: Id) -> bool {
    &&& journal.replacements.contains_key(id)
    &&& journal.objects.contains_key(journal.replacements[id].victim)
    &&& journal.objects[journal.replacements[id].victim].unlinked
    &&& journal.uploads.contains_key(id)
    &&& awaits_publication(journal.uploads[id].state)
}

proof fn lemma_all_released(journal: JournalView, rows: Seq<(u64, Id)>)
    requires
        forall|i: int| 0 <= i < rows.len() ==> releasable(journal, (#[trigger] rows[i]).1),
    ensures
        ({
            let (after, refusal) = replacements_released_all(journal, rows);
            &&& refusal is None
            &&& after == (JournalView { replacements: after.replacements, ..journal })
            &&& forall|id: Id| #[trigger]
                after.replacements.contains_key(id) <==> journal.replacements.contains_key(id)
            &&& forall|id: Id| #[trigger]
                journal.replacements.contains_key(id) ==> after.replacements[id] == (
                ReplacementRecord {
                    local_ready: journal.replacements[id].local_ready || exists|i: int|
                        0 <= i < rows.len() && (#[trigger] rows[i]).1 == id,
                    ..journal.replacements[id]
                })
        }),
    decreases rows.len(),
{
    if rows.len() > 0 {
        let first = rows[0].1;
        assert(releasable(journal, rows[0].1));
        let state = replacement_released(journal, first)->Ok_0;
        let rest = rows.drop_first();
        assert forall|i: int| 0 <= i < rest.len() implies releasable(
            state,
            (#[trigger] rest[i]).1,
        ) by {
            assert(rest[i] == rows[i + 1]);
            assert(releasable(journal, rows[i + 1].1));
        }
        lemma_all_released(state, rest);
        let after = replacements_released_all(journal, rows).0;
        assert forall|id: Id| #[trigger]
            after.replacements.contains_key(id) <==> journal.replacements.contains_key(id) by {
            assert(state.replacements.contains_key(id) <==> journal.replacements.contains_key(id));
        }
        assert forall|id: Id| #[trigger]
            journal.replacements.contains_key(id) implies after.replacements[id] == (
        ReplacementRecord {
            local_ready: journal.replacements[id].local_ready || exists|i: int|
                0 <= i < rows.len() && (#[trigger] rows[i]).1 == id,
            ..journal.replacements[id]
        }) by {
            assert(state.replacements.contains_key(id));
            if exists|i: int| 0 <= i < rest.len() && (#[trigger] rest[i]).1 == id {
                let i = choose|i: int| 0 <= i < rest.len() && (#[trigger] rest[i]).1 == id;
                assert(rows[i + 1].1 == id);
            }
            if exists|i: int| 0 <= i < rows.len() && (#[trigger] rows[i]).1 == id {
                let i = choose|i: int| 0 <= i < rows.len() && (#[trigger] rows[i]).1 == id;
                if i > 0 {
                    assert(rest[i - 1] == rows[i]);
                } else {
                    assert(id == first);
                }
            }
            if id == first {
                assert(rows[0].1 == id);
            }
        }
    }
}

/// A restart while the source of a replacement is still captured refuses nothing: every
/// other reader barrier is lifted, and that of a source that is to be fetched stays until
/// its own readers are released, which then succeeds.
pub proof fn captures_survive_a_restart(journal: JournalView, rows: Seq<(u64, Id)>, id: Id)
    requires
        listing(journal.uploads, outlived_readers(journal), rows),
        forall|id: Id| #[trigger]
            journal.replacements.contains_key(id) && !journal.replacements[id].local_ready
                && !needs_gate(journal, id) ==> releasable(journal, id),
        forall|id: Id| #[trigger]
            journal.uploads.contains_key(id) ==> journal.uploads[id].sequence > 0,
        journal.replacements.contains_key(id),
    ensures
        ({
            let (after, refusal) = replacements_released_all(journal, rows);
            &&& refusal is None
            &&& after.uploads == journal.uploads
            &&& after.preparations == journal.preparations
            &&& after.replacements.contains_key(id)
            &&& after.replacements[id].local_ready == (journal.replacements[id].local_ready
                || !needs_gate(journal, id))
            &&& releasable(journal, id) ==> match replacement_released(after, id) {
                Ok(state) => state.replacements[id].local_ready && state.uploads
                    == journal.uploads,
                Err(_) => false,
            }
        }),
{
    let wanted = outlived_readers(journal);
    assert forall|i: int| 0 <= i < rows.len() implies releasable(
        journal,
        (#[trigger] rows[i]).1,
    ) by {
        assert(rows.contains(rows[i]));
        assert(chosen(journal.uploads, wanted, rows[i]));
    }
    lemma_all_released(journal, rows);
    let row = (journal.uploads[id].sequence, id);
    if exists|i: int| 0 <= i < rows.len() && (#[trigger] rows[i]).1 == id {
        let i = choose|i: int| 0 <= i < rows.len() && (#[trigger] rows[i]).1 == id;
        assert(rows.contains(rows[i]));
        assert(chosen(journal.uploads, wanted, rows[i]));
    }
    if !journal.replacements[id].local_ready && !needs_gate(journal, id) {
        assert(chosen(journal.uploads, wanted, row));
        assert(rows.contains(row));
        let i = choose|i: int| 0 <= i < rows.len() && rows[i] == row;
        assert(rows[i].1 == id);
    }
}

/// Whether the object is a plain file with a name of its own and an active owner.
fn check_side(object: &NamespaceObject) -> (result: Result<(), JournalError>)
    ensures
        match result {
            Ok(()) => side_refusal(*object) is None,
            Err(error) => side_refusal(*object) == Some(error),
        },
{
    if object.unlinked || object.follows_remote || !object.remote_owned {
        return Err(JournalError::Stale);
    }
    if object.node.kind != NodeKind::File || object.node.target.is_some() {
        return Err(JournalError::Intent);
    }
    Ok(())
}

} // verus!
