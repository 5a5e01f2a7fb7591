//! Capture of an unchanged cloud source after a local replacement has returned.
//! Preparing operations are durable queue barriers, never uploadable snapshots.
use crate::journal::generations::{confirmed_of, find};
use crate::journal::listing::{earliest, lemma_head, select};
use crate::journal::queue::stepped;
use crate::journal::receipts::upload_saved;
use crate::journal::records::{
    JournalError, JournalView, UploadJournal, UploadPreparation, UploadRecord, UploadState,
};
use crate::journal::sealing::{available, left, Usage, WorkingSource, FILE_LIMIT};
use crate::journal::uploads::{count_one, counted, retry_second, retry_time, satisfied};
use crate::journal::working::{reservable, stream_published_for};
use crate::model::{content_revision, Id, Node, NodeKind};
use crate::outside::{fresh_id, id_text, now_seconds, read_as, read_id, write_id};
use crate::text::{characters, same_text, text_from};
use crate::words::{begins, begins_with, part};
use vstd::prelude::*;

verus! {

/// An upload whose source may be captured now.
pub open spec fn capturable(journal: JournalView, now: u64, id: Id, record: UploadRecord) -> bool {
    record.state == UploadState::Preparing && record.attempt is None && record.retry_at <= now
        && satisfied(journal, id)
}

/// This upload is the next whose source is to be captured.
pub open spec fn next_preparation(journal: JournalView, now: u64, id: Id) -> bool {
    earliest(
        journal.uploads,
        |id: Id, record: UploadRecord| capturable(journal, now, id, record),
        id,
    )
}

/// The preparation with its source settled: a receipt supplies one that was not
/// known. Retries never follow a newer edit.
pub open spec fn settled_source(journal: JournalView, preparation: UploadPreparation) -> Result<
    UploadPreparation,
    JournalError,
> {
    if preparation.remote is Some {
        Ok(preparation)
    } else {
        match preparation.source_base {
            None => Err(JournalError::Corrupt),
            Some(base) => match find(journal, base) {
                None => Err(JournalError::Missing),
                Some(operation) => Ok(
                    UploadPreparation { remote: confirmed_of(operation), ..preparation },
                ),
            },
        }
    }
}

/// The source is a plain file of the expected size whose bytes are fixed.
pub open spec fn fetchable(source: Option<Node>, size: u64) -> bool {
    match source {
        Some(node) => node.kind == NodeKind::File && node.target is None && node.size == size
            && content_revision(node@) is Some && node.etag is Some,
        None => false,
    }
}

/// What claiming a preparation does. A source that cannot be fetched fails the upload.
pub open spec fn preparation_claimed(
    journal: JournalView,
    attempt: Id,
    id: Id,
    result: Result<Option<(UploadRecord, UploadPreparation)>, JournalError>,
    after: JournalView,
) -> bool {
    let record = journal.uploads[id];
    if !journal.preparations.contains_key(id) {
        result == Err::<Option<(UploadRecord, UploadPreparation)>, JournalError>(
            JournalError::Missing,
        ) && after == journal
    } else if journal.preparations[id].operation != id || journal.preparations[id].scope@
        != record.scope@ {
        result == Err::<Option<(UploadRecord, UploadPreparation)>, JournalError>(
            JournalError::Corrupt,
        ) && after == journal
    } else {
        match settled_source(journal, journal.preparations[id]) {
            Err(error) => result == Err::<Option<(UploadRecord, UploadPreparation)>, JournalError>(
                error,
            ) && after == journal,
            Ok(preparation) => if !fetchable(preparation.remote, record.size) {
                match upload_saved(journal, UploadRecord { state: UploadState::Failed, ..record }) {
                    Ok(state) => result == Err::<
                        Option<(UploadRecord, UploadPreparation)>,
                        JournalError,
                    >(JournalError::Corrupt) && after == state,
                    Err(error) => result == Err::<
                        Option<(UploadRecord, UploadPreparation)>,
                        JournalError,
                    >(error) && after == journal,
                }
            } else {
                let held = UploadRecord { attempt: Some(attempt), ..record };
                result == Ok::<Option<(UploadRecord, UploadPreparation)>, JournalError>(
                    Some((held, preparation)),
                ) && after == (JournalView {
                    preparations: journal.preparations.insert(id, preparation),
                    uploads: journal.uploads.insert(id, held),
                    ..journal
                })
            },
        }
    }
}

/// What claiming the next preparation does.
pub open spec fn next_prepared(
    journal: JournalView,
    now: u64,
    attempt: Id,
    result: Result<Option<(UploadRecord, UploadPreparation)>, JournalError>,
    after: JournalView,
) -> bool {
    if exists|id: Id| next_preparation(journal, now, id) {
        exists|id: Id| #[trigger]
            next_preparation(journal, now, id) && preparation_claimed(
                journal,
                attempt,
                id,
                result,
                after,
            )
    } else {
        result == Ok::<Option<(UploadRecord, UploadPreparation)>, JournalError>(None) && after
            == journal
    }
}

/// The preparation is held by this attempt.
pub open spec fn preparation_held(journal: JournalView, id: Id, attempt: Id) -> Result<
    (UploadRecord, UploadPreparation),
    JournalError,
> {
    if !journal.uploads.contains_key(id) {
        Err(JournalError::Missing)
    } else {
        let record = journal.uploads[id];
        if record.state != UploadState::Preparing || record.attempt != Some(attempt) {
            Err(JournalError::Stale)
        } else if !journal.preparations.contains_key(id) {
            Err(JournalError::Missing)
        } else {
            let preparation = journal.preparations[id];
            if preparation.remote is None || preparation.scope@ != record.scope@
                || preparation.operation != id {
                Err(JournalError::Corrupt)
            } else {
                Ok((record, preparation))
            }
        }
    }
}

/// A capture ended without its bytes.
pub open spec fn preparation_deferred(
    journal: JournalView,
    now: u64,
    id: Id,
    attempt: Id,
    conflict: bool,
    delay: u64,
) -> Result<JournalView, JournalError> {
    match preparation_held(journal, id, attempt) {
        Err(error) => Err(error),
        Ok((record, _)) => upload_saved(
            journal,
            UploadRecord {
                attempt: None,
                state: if conflict {
                    UploadState::Conflict
                } else {
                    record.state
                },
                failed_attempts: counted(record.failed_attempts),
                retry_at: retry_time(now, delay),
                ..record
            },
        ),
    }
}

/// Two digests differ, where both are known.
pub open spec fn digests_differ(known: Option<Seq<char>>, digest: Seq<char>) -> bool {
    known is Some && known->0 != digest
}

/// The digest of a captured source is recorded before the snapshot gets its final
/// name. `own` says that the source lies in this account's spool; `existing` is the
/// digest of a snapshot that an interrupted capture left under the final name.
pub open spec fn capture_recorded(
    journal: JournalView,
    id: Id,
    attempt: Id,
    source: WorkingSource,
    own: bool,
    existing: Option<Seq<char>>,
    usage: Usage,
    digest: String,
) -> Result<JournalView, JournalError> {
    match preparation_held(journal, id, attempt) {
        Err(error) => Err(error),
        Ok((record, preparation)) => if !own || source.written != source.size || source.size
            != record.size {
            Err(JournalError::Corrupt)
        } else if existing is None && (usage.files >= FILE_LIMIT || record.size > left(
            journal.quota,
            usage.bytes,
        )) {
            Err(JournalError::Quota)
        } else if digests_differ(crate::text::optional_view(preparation.sha256), digest@)
            || digests_differ(existing, digest@) {
            Err(JournalError::Corrupt)
        } else if preparation.sha256 is Some {
            Ok(journal)
        } else {
            Ok(
                JournalView {
                    preparations: journal.preparations.insert(
                        id,
                        UploadPreparation { sha256: Some(digest), ..preparation },
                    ),
                    ..journal
                },
            )
        },
    }
}

/// The snapshot that an interrupted capture left is the recorded one.
pub open spec fn adoptable(record: UploadRecord, preparation: UploadPreparation, size: u64, plain: bool, digest: Seq<char>) -> bool {
    size == record.size && plain && crate::text::optional_view(preparation.sha256) == Some(digest)
}

/// The captured upload becomes pending, on the stream of its source.
pub open spec fn capture_finished(
    journal: JournalView,
    id: Id,
    attempt: Id,
    digest: String,
    stream: Id,
    version: String,
    source: Option<WorkingSource>,
    own: bool,
) -> Result<JournalView, JournalError> {
    match preparation_held(journal, id, attempt) {
        Err(error) => Err(error),
        Ok((record, preparation)) => if !journal.objects.contains_key(preparation.source) {
            Err(JournalError::Missing)
        } else {
            let object = journal.objects[preparation.source];
            let published = if object.working_file is Some {
                Ok((journal, object.working_file))
            } else {
                match source {
                    None => Err(JournalError::Corrupt),
                    Some(source) => match stream_published_for(
                        journal,
                        stream,
                        version,
                        preparation.source,
                        preparation.scope,
                        preparation.remote->0,
                        source,
                        own,
                    ) {
                        Err(error) => Err(error),
                        Ok((state, _)) => Ok(
                            (state, state.objects[preparation.source].working_file),
                        ),
                    },
                }
            };
            match published {
                Err(error) => Err(error),
                Ok((state, working_file)) => upload_saved(
                    state,
                    UploadRecord {
                        working_file,
                        sha256: digest,
                        state: UploadState::Pending,
                        attempt: None,
                        retry_at: 0,
                        ..record
                    },
                ),
            }
        },
    }
}

/// The start of the name of a preparation's temporary file.
pub open spec fn temporary_prefix(id: Id) -> Seq<char> {
    ".cirrove-preparing-"@ + id_text(id) + seq!['-']
}

/// The preparation that a temporary file's name states.
pub open spec fn temporary_owner(name: Seq<char>) -> Option<Id> {
    let start = ".cirrove-preparing-"@;
    if begins(name, start) && name.len() > start.len() + 36 && name[(start.len() + 36) as int]
        == '-' {
        read_as(name.subrange(start.len() as int, (start.len() + 36) as int))
    } else {
        None
    }
}

/// The start of the name of a preparation's temporary file.
pub fn temporary_name(id: Id) -> (prefix: String)
    ensures
        prefix@ == temporary_prefix(id),
{
    let mut prefix = ".cirrove-preparing-".to_string();
    prefix.append(write_id(id).as_str());
    prefix.append("-");
    proof {
        reveal_strlit("-");
        assert("-"@ =~= seq!['-']);
    }
    prefix
}

/// The preparation that a temporary file's name states. Mutable edits and finished
/// snapshots have plain names.
pub fn preparation_of(name: &str) -> (owner: Option<Id>)
    ensures
        owner == temporary_owner(name@),
{
    let chars = characters(name);
    let start = characters(".cirrove-preparing-");
    let length: usize = start.len();
    proof {
        reveal_strlit(".cirrove-preparing-");
    }
    if !begins_with(&chars, &start) || chars.len() <= length + 36 || chars[length + 36] != '-' {
        return None;
    }
    read_id(text_from(&part(&chars, length, length + 36)).as_str())
}

impl UploadJournal {
    /// The preparation of an upload.
    pub fn upload_preparation(&self, id: Id) -> (result: Result<UploadPreparation, JournalError>)
        ensures
            match result {
                Ok(preparation) => self@.preparations.contains_key(id) && preparation
                    == self@.preparations[id],
                Err(error) => error == JournalError::Missing && !self@.preparations.contains_key(id),
            },
    {
        match self.preparations.get(id) {
            Some(preparation) => Ok(preparation.clone()),
            None => Err(JournalError::Missing),
        }
    }

    /// Claims one preparation under a given attempt.
    fn claim_preparation_of(&mut self, attempt: Id, id: Id) -> (result: Result<
        Option<(UploadRecord, UploadPreparation)>,
        JournalError,
    >)
        requires
            old(self)@.uploads.contains_key(id),
        ensures
            preparation_claimed(old(self)@, attempt, id, result, final(self)@),
    {
        let mut record = self.get(id)?;
        let mut preparation = self.upload_preparation(id)?;
        if preparation.operation != id || !preparation.scope.same(&record.scope) {
            return Err(JournalError::Corrupt);
        }
        if preparation.remote.is_none() {
            let base = match preparation.source_base {
                Some(base) => base,
                None => {
                    return Err(JournalError::Corrupt);
                },
            };
            preparation.remote = self.operation(base)?.confirmed_node();
        }
        let fine = match &preparation.remote {
            Some(node) => node.kind == NodeKind::File && node.target.is_none() && node.size
                == record.size && node.has_content_revision() && node.etag.is_some(),
            None => false,
        };
        if !fine {
            record.state = UploadState::Failed;
            self.save_upload(record)?;
            return Err(JournalError::Corrupt);
        }
        record.attempt = Some(attempt);
        self.preparations.put(id, preparation.clone());
        self.uploads.put(id, record.clone());
        Ok(Some((record, preparation)))
    }

    /// Claims the next preparation at a given second under a given attempt.
    pub fn claim_preparation_at(&mut self, now: u64, attempt: Id) -> (result: Result<
        Option<(UploadRecord, UploadPreparation)>,
        JournalError,
    >)
        ensures
            next_prepared(old(self)@, now, attempt, result, final(self)@),
    {
        let keep = |id: Id, record: &UploadRecord| -> (kept: bool)
            ensures
                kept == capturable(self@, now, id, *record),
            {
                record.state == UploadState::Preparing && record.attempt.is_none()
                    && record.retry_at <= now && self.prerequisites_satisfied(id)
            };
        let ghost wanted = |id: Id, record: UploadRecord| capturable(self@, now, id, record);
        let rows = select(&self.uploads, keep, Ghost(wanted));
        proof {
            lemma_head(self@.uploads, wanted, rows@);
        }
        if rows.len() == 0 {
            proof {
                assert forall|id: Id| !next_preparation(self@, now, id) by {
                    if next_preparation(self@, now, id) {
                        assert(self@.uploads.contains_key(id));
                    }
                }
            }
            return Ok(None);
        }
        let id = rows[0].1;
        proof {
            assert(next_preparation(self@, now, id));
        }
        self.claim_preparation_of(attempt, id)
    }

    /// Claims the next preparation. Barriers of the source must be complete; target
    /// uploads and reader preservation may proceed in parallel. Fetching a source
    /// never authorizes publication of the target.
    pub fn claim_preparation(&mut self) -> (result: Result<
        Option<(UploadRecord, UploadPreparation)>,
        JournalError,
    >)
        ensures
            exists|now: u64, attempt: Id| #[trigger]
                next_prepared(old(self)@, now, attempt, result, final(self)@),
    {
        let now = now_seconds();
        let attempt = fresh_id();
        self.claim_preparation_at(now, attempt)
    }

    /// The preparation that an attempt holds.
    pub fn active_preparation(&self, id: Id, attempt: Id) -> (result: Result<
        (UploadRecord, UploadPreparation),
        JournalError,
    >)
        ensures
            result == preparation_held(self@, id, attempt),
    {
        let record = self.get(id)?;
        let current = match record.attempt {
            Some(token) => token == attempt,
            None => false,
        };
        if record.state != UploadState::Preparing || !current {
            return Err(JournalError::Stale);
        }
        let preparation = self.upload_preparation(id)?;
        if preparation.remote.is_none() || !preparation.scope.same(&record.scope)
            || preparation.operation != id {
            return Err(JournalError::Corrupt);
        }
        Ok((record, preparation))
    }

    /// Reserves a source for the bytes of a preparation.
    pub fn reserve_preparation(&self, id: Id, attempt: Id, usage: Usage) -> (result: Result<
        WorkingSource,
        JournalError,
    >)
        ensures
            match preparation_held(self@, id, attempt) {
                Err(error) => result == Err::<WorkingSource, JournalError>(error),
                Ok((record, _)) => result == (if reservable(self@.quota, record.size, usage) {
                    Ok::<WorkingSource, JournalError>(
                        WorkingSource { size: record.size, written: 0 },
                    )
                } else {
                    Err(JournalError::Quota)
                }),
            },
    {
        let (record, _) = self.active_preparation(id, attempt)?;
        self.reserve_working(record.size, usage)
    }

    /// Ends a capture at a given second.
    pub fn defer_preparation_at(&mut self, now: u64, id: Id, attempt: Id, conflict: bool, delay: u64) -> (result:
        Result<(), JournalError>)
        ensures
            stepped(
                preparation_deferred(old(self)@, now, id, attempt, conflict, delay),
                result,
                old(self)@,
                final(self)@,
            ),
    {
        let (mut record, _) = self.active_preparation(id, attempt)?;
        record.attempt = None;
        if conflict {
            record.state = UploadState::Conflict;
        }
        record.failed_attempts = count_one(record.failed_attempts);
        record.retry_at = retry_second(now, delay);
        self.save_upload(record)
    }

    /// Ends a capture without its bytes; it is not tried again before the delay, in
    /// seconds, has passed.
    pub fn defer_preparation(&mut self, id: Id, attempt: Id, conflict: bool, delay: u64) -> (result:
        Result<(), JournalError>)
        ensures
            exists|now: u64|
                stepped(
                    #[trigger] preparation_deferred(old(self)@, now, id, attempt, conflict, delay),
                    result,
                    old(self)@,
                    final(self)@,
                ),
    {
        self.defer_preparation_at(now_seconds(), id, attempt, conflict, delay)
    }

    /// Records the digest of a captured source.
    pub fn record_capture(
        &mut self,
        id: Id,
        attempt: Id,
        source: WorkingSource,
        own: bool,
        existing: Option<&str>,
        usage: Usage,
        digest: String,
    ) -> (result: Result<(), JournalError>)
        ensures
            stepped(
                capture_recorded(
                    old(self)@,
                    id,
                    attempt,
                    source,
                    own,
                    match existing {
                        Some(text) => Some(text@),
                        None => None,
                    },
                    usage,
                    digest,
                ),
                result,
                old(self)@,
                final(self)@,
            ),
    {
        let (record, preparation) = self.active_preparation(id, attempt)?;
        if !own || source.written != source.size || source.size != record.size {
            return Err(JournalError::Corrupt);
        }
        if existing.is_none() && (usage.files >= FILE_LIMIT || record.size > available(
            self.quota,
            usage.bytes,
        )) {
            return Err(JournalError::Quota);
        }
        if let Some(known) = &preparation.sha256 {
            if *known != digest {
                return Err(JournalError::Corrupt);
            }
        }
        if let Some(previous) = existing {
            if !same_text(previous, digest.as_str()) {
                return Err(JournalError::Corrupt);
            }
        }
        if preparation.sha256.is_none() {
            let mut preparation = preparation;
            preparation.sha256 = Some(digest);
            self.preparations.put(id, preparation);
        }
        Ok(())
    }

    /// Whether a snapshot left by an interrupted capture may be adopted. Incomplete
    /// downloads keep temporary names and are never looked at here. `plain` says that
    /// the file is private and read-only.
    pub fn check_prepared(&self, id: Id, attempt: Id, size: u64, plain: bool, digest: &str) -> (result:
        Result<(), JournalError>)
        ensures
            match preparation_held(self@, id, attempt) {
                Err(error) => result == Err::<(), JournalError>(error),
                Ok((record, preparation)) => result == (if adoptable(
                    record,
                    preparation,
                    size,
                    plain,
                    digest@,
                ) {
                    Ok::<(), JournalError>(())
                } else {
                    Err(JournalError::Corrupt)
                }),
            },
    {
        let (record, preparation) = self.active_preparation(id, attempt)?;
        if size != record.size || !plain || !crate::text::optional_is(&preparation.sha256, digest) {
            return Err(JournalError::Corrupt);
        }
        Ok(())
    }

    /// Makes a captured upload pending, under a given identity for a new stream.
    pub fn finish_preparation_as(
        &mut self,
        id: Id,
        attempt: Id,
        digest: String,
        stream: Id,
        version: String,
        source: Option<WorkingSource>,
        own: bool,
    ) -> (result: Result<(), JournalError>)
        ensures
            stepped(
                capture_finished(old(self)@, id, attempt, digest, stream, version, source, own),
                result,
                old(self)@,
                final(self)@,
            ),
    {
        let (mut record, preparation) = self.active_preparation(id, attempt)?;
        let mut tx = self.copy();
        let mut object = tx.namespace_object(preparation.source)?;
        if object.working_file.is_none() {
            let source = match source {
                Some(source) => source,
                None => {
                    return Err(JournalError::Corrupt);
                },
            };
            let remote = match preparation.remote {
                Some(remote) => remote,
                None => {
                    return Err(JournalError::Corrupt);
                },
            };
            tx.publish_working_for(
                stream,
                version,
                preparation.source,
                preparation.scope,
                remote,
                source,
                own,
            )?;
            proof {
                lemma_publication_keeps_object(
                    self@,
                    stream,
                    version,
                    preparation.source,
                    preparation.scope,
                    remote,
                    source,
                    own,
                );
            }
            object = tx.namespace_object(preparation.source)?;
        }
        record.working_file = object.working_file;
        record.sha256 = digest;
        record.state = UploadState::Pending;
        record.attempt = None;
        record.retry_at = 0;
        tx.save_upload(record)?;
        *self = tx;
        Ok(())
    }

    /// Finishes the same original operation, not a later save of its source. Existing
    /// working bytes, including newer edits, are never overwritten.
    pub fn finish_preparation(
        &mut self,
        id: Id,
        attempt: Id,
        digest: String,
        source: Option<WorkingSource>,
        own: bool,
    ) -> (result: Result<(), JournalError>)
        ensures
            exists|stream: Id, version: String|
                version@ == "working-"@ + id_text(stream) && stepped(
                    #[trigger] capture_finished(
                        old(self)@,
                        id,
                        attempt,
                        digest,
                        stream,
                        version,
                        source,
                        own,
                    ),
                    result,
                    old(self)@,
                    final(self)@,
                ),
    {
        let stream = fresh_id();
        let mut version = "working-".to_string();
        version.append(write_id(stream).as_str());
        self.finish_preparation_as(id, attempt, digest, stream, version, source, own)
    }
}

/// Publishing a stream for an object leaves that object in the journal.
proof fn lemma_publication_keeps_object(
    journal: JournalView,
    stream: Id,
    version: String,
    object: Id,
    scope: crate::model::Scope,
    remote: Node,
    source: WorkingSource,
    own: bool,
)
    ensures
        match stream_published_for(
            journal,
            stream,
            version,
            object,
            scope,
            remote,
            source,
            own,
        ) {
            Ok((state, _)) => state.objects.contains_key(object),
            Err(_) => true,
        },
{
}

} // verus!
