use cirrove_service::journal::generations::{Operation, Ready};
use cirrove_service::journal::overlay::project_namespace;
use cirrove_service::journal::preparation::{preparation_of, temporary_name};
use cirrove_service::journal::records::{
    JournalError, MutationState, NamespaceNames, QueueRow, UploadJournal, UploadRecord,
    UploadState,
};
use cirrove_service::journal::recovery::{check_store, SCHEMA_VERSION};
use cirrove_service::journal::sealing::{available, count_file, Seal, Sealed, Usage, FILE_LIMIT};
use cirrove_service::journal::tables::{ResourceTable, Table};
use cirrove_service::journal::uploads::check_payload;
use cirrove_service::model::{
    MutationIntent, MutationReceipt, MutationRequest, Node, NodeKind, RemoteRef, Scope,
    UploadIntent,
};

const QUOTA: u64 = 1 << 20;
const NOTHING: Usage = Usage { bytes: 0, files: 0 };

fn scope() -> Scope {
    scope_of("a")
}

fn scope_of(account: &str) -> Scope {
    Scope {
        account: account.into(),
        provider: "fixture".into(),
        collection: "d".into(),
    }
}

fn journal() -> UploadJournal {
    UploadJournal::new("a".into(), QUOTA)
}

fn file(id: &str, parent: &str, name: &str, size: u64, version: &str) -> Node {
    Node {
        id: id.into(),
        parent_id: Some(parent.into()),
        name: name.into(),
        kind: NodeKind::File,
        size,
        modified_unix: 1,
        etag: Some(format!("e-{version}")),
        content_version: Some(version.into()),
        target: None,
    }
}

fn folder(id: &str, parent: &str, name: &str) -> Node {
    Node {
        kind: NodeKind::Folder,
        content_version: None,
        ..file(id, parent, name, 0, "folder")
    }
}

fn sealed(bytes: &[u8]) -> Sealed {
    let mut seal = Seal::start(QUOTA, NOTHING).unwrap();
    seal.write(bytes).unwrap();
    seal.finish()
}

fn create(name: &str) -> UploadIntent {
    UploadIntent::Create {
        parent: "root".into(),
        name: name.into(),
    }
}

fn queued(journal: &mut UploadJournal, name: &str) -> UploadRecord {
    journal
        .enqueue(scope(), create(name), true, NOTHING, sealed(b"hello"))
        .unwrap()
}

fn claimed(journal: &mut UploadJournal) -> UploadRecord {
    let id = journal.next_pending().unwrap();
    journal.claim_next(id, Ok(())).unwrap().unwrap()
}

fn mutation(intent: MutationIntent) -> MutationRequest {
    MutationRequest {
        scope: scope(),
        intent,
    }
}

fn removal(before: Node) -> MutationRequest {
    mutation(MutationIntent::RemoveFile { before })
}

#[test]
fn sealing_measures_hashes_and_bounds_a_snapshot() {
    let snapshot = sealed(b"abc");
    assert_eq!(snapshot.size, 3);
    assert_eq!(
        snapshot.sha256,
        "ba7816bf8f01cfea414140de5dae2223b00361a396177a9cb410ff61f20015ad"
    );
    let mut pieces = Seal::start(3, NOTHING).unwrap();
    pieces.write(b"a").unwrap();
    pieces.write(b"bc").unwrap();
    assert_eq!(pieces.write(b"d"), Err(JournalError::Quota));
    let full = Usage {
        bytes: 0,
        files: FILE_LIMIT,
    };
    assert!(matches!(Seal::start(3, full), Err(JournalError::Quota)));
    assert_eq!(available(10, 4), 6);
    assert_eq!(available(4, 10), 0);
    assert_eq!(
        count_file(NOTHING, true, 7),
        Ok(Usage { bytes: 7, files: 1 })
    );
    assert_eq!(count_file(NOTHING, false, 7), Err(JournalError::Corrupt));
    assert_eq!(count_file(full, true, 7), Err(JournalError::Quota));
}

#[test]
fn a_store_belongs_to_one_account_and_one_schema() {
    assert_eq!(check_store("a", QUOTA, SCHEMA_VERSION, "a"), Ok(()));
    assert_eq!(
        check_store("a", QUOTA, SCHEMA_VERSION, "b"),
        Err(JournalError::Account)
    );
    assert_eq!(
        check_store("a", QUOTA, SCHEMA_VERSION + 1, "a"),
        Err(JournalError::Schema)
    );
}

#[test]
fn an_upload_is_claimed_reported_and_acknowledged() {
    let mut j = journal();
    let record = queued(&mut j, "x.txt");
    assert_eq!(record.state, UploadState::Pending);
    assert_eq!(record.sequence, 1);
    assert_eq!(record.size, 5);
    let active = claimed(&mut j);
    assert_eq!(active.id, record.id);
    assert_eq!(active.state, UploadState::Uploading);
    let attempt = active.attempt.unwrap();
    assert_eq!(j.next_pending(), None);
    assert_eq!(
        j.record_session(record.id, attempt.wrapping_add(1), 7, 2),
        Err(JournalError::Stale)
    );
    j.record_session(record.id, attempt, 7, 2).unwrap();
    assert_eq!(j.get(record.id).unwrap().transferred_bytes, 2);
    j.acknowledge(record.id, attempt, file("r1", "root", "x.txt", 5, "1"))
        .unwrap();
    let done = j.get(record.id).unwrap();
    assert_eq!(done.state, UploadState::Uploaded);
    assert_eq!(done.remote.unwrap().id, "r1");
    assert_eq!(
        j.acknowledge(record.id, attempt, file("r1", "root", "x.txt", 5, "1")),
        Err(JournalError::Stale)
    );
    assert_eq!(j.uploaded_payloads(16), [record.id]);
    j.mark_collected(record.id);
    assert!(j.uploaded_payloads(16).is_empty());
}

#[test]
fn foreign_accounts_and_invalid_intents_are_refused() {
    let mut j = journal();
    assert_eq!(
        j.enqueue(scope_of("b"), create("x"), true, NOTHING, sealed(b"x"))
            .map(|record| record.id),
        Err(JournalError::Account)
    );
    assert_eq!(
        j.enqueue(scope(), create("x"), false, NOTHING, sealed(b"x"))
            .map(|record| record.id),
        Err(JournalError::Intent)
    );
    assert!(matches!(j.get(99), Err(JournalError::Missing)));
    assert!(matches!(j.mutation(99), Err(JournalError::Missing)));
    assert!(matches!(j.namespace_object(99), Err(JournalError::Missing)));
    assert_eq!(j.list(0, 10).len(), 0);
}

#[test]
fn edits_of_one_name_are_sent_in_order() {
    let mut j = journal();
    let first = queued(&mut j, "x.txt");
    let second = queued(&mut j, "x.txt");
    let other = queued(&mut j, "y.txt");
    assert_eq!(second.sequence, 2);
    let active = claimed(&mut j);
    assert_eq!(active.id, first.id);
    let beside = claimed(&mut j);
    assert_eq!(beside.id, other.id);
    assert_eq!(j.next_pending(), None);
    j.acknowledge(
        first.id,
        active.attempt.unwrap(),
        file("r1", "root", "x.txt", 5, "1"),
    )
    .unwrap();
    assert_eq!(j.next_pending(), Some(second.id));
    assert_eq!(j.list(0, 10).len(), 3);
    assert_eq!(j.list(1, 1).len(), 1);
    assert_eq!(j.list(1, 1)[0].id, second.id);
}

#[test]
fn a_later_save_follows_the_receipt_of_the_earlier_one() {
    let mut j = journal();
    let first = queued(&mut j, "x.txt");
    let second = j
        .enqueue_after(first.id, true, NOTHING, sealed(b"again"))
        .unwrap();
    assert!(!second.base.unwrap().resolved);
    assert!(matches!(
        j.enqueue_after(first.id, true, NOTHING, sealed(b"twice")),
        Err(JournalError::Stale)
    ));
    let active = claimed(&mut j);
    assert_eq!(active.id, first.id);
    assert!(j.ready_batch().is_empty());
    j.acknowledge(
        first.id,
        active.attempt.unwrap(),
        file("r1", "root", "x.txt", 5, "1"),
    )
    .unwrap();
    assert_eq!(j.next_pending(), None);
    assert_eq!(j.ready_batch(), vec![Ready::Upload(second.id)]);
    match j.plan_upload(second.id).unwrap() {
        Some(UploadIntent::Replace {
            item,
            expected_etag,
        }) => {
            assert_eq!(item, "r1");
            assert_eq!(expected_etag, "e-1");
        }
        other => panic!("unexpected {other:?}"),
    }
    j.resolve_upload(second.id, true).unwrap();
    assert_eq!(j.next_pending(), Some(second.id));
}

#[test]
fn an_interrupted_attempt_is_verified_before_anything_is_sent_again() {
    let mut j = journal();
    let record = queued(&mut j, "x.txt");
    let first = claimed(&mut j);
    j.recover_attempts();
    assert_eq!(j.get(record.id).unwrap().state, UploadState::VerifyRequired);
    assert!(j.get(record.id).unwrap().attempt.is_none());
    assert_eq!(
        j.stop_attempt(record.id, first.attempt.unwrap(), UploadState::Failed),
        Err(JournalError::Stale)
    );
    assert_eq!(j.next_pending(), None);
    let verifying = j.claim_next_verification().unwrap().unwrap();
    assert_eq!(verifying.state, UploadState::Verifying);
    assert_eq!(
        j.retry_verified_uncommitted(record.id, Ok(())),
        Err(JournalError::Stale)
    );
    j.stop_attempt(
        record.id,
        verifying.attempt.unwrap(),
        UploadState::VerifyRequired,
    )
    .unwrap();
    j.retry_verified_uncommitted(record.id, Ok(())).unwrap();
    assert_eq!(j.next_pending(), Some(record.id));
}

#[test]
fn a_deferred_attempt_waits_and_counts_its_failures() {
    let mut j = journal();
    let record = queued(&mut j, "x.txt");
    let id = j.next_upload_at(10, UploadState::Pending).unwrap();
    let active = j.claim_upload(10, 77, id, Ok(())).unwrap().unwrap();
    assert_eq!(active.attempt, Some(77));
    assert_eq!(
        j.defer_attempt_at(10, id, 77, UploadState::Pending, 30),
        Err(JournalError::Stale)
    );
    j.defer_attempt_at(10, id, 77, UploadState::VerifyRequired, 30)
        .unwrap();
    let waiting = j.get(record.id).unwrap();
    assert_eq!((waiting.retry_at, waiting.failed_attempts), (40, 1));
    assert_eq!(j.next_upload_at(39, UploadState::VerifyRequired), None);
    assert_eq!(j.next_upload_at(40, UploadState::VerifyRequired), Some(id));
    let active = j.claim_next_verification_at(40, 78).unwrap().unwrap();
    j.stop_attempt(id, active.attempt.unwrap(), UploadState::Failed)
        .unwrap();
    j.request_retry(id).unwrap();
    let asked = j.get(id).unwrap();
    assert_eq!(asked.state, UploadState::VerifyRequired);
    assert_eq!((asked.retry_at, asked.failed_attempts), (0, 2));
}

#[test]
fn a_damaged_payload_is_never_sent() {
    let record = queued(&mut journal(), "x.txt");
    assert_eq!(check_payload(&record, &sealed(b"hello")), Ok(()));
    assert_eq!(
        check_payload(&record, &sealed(b"hellO")),
        Err(JournalError::Corrupt)
    );
    let mut j = journal();
    queued(&mut j, "x.txt");
    let id = j.next_pending().unwrap();
    assert!(matches!(
        j.claim_next(id, Err(JournalError::Corrupt)),
        Err(JournalError::Corrupt)
    ));
    assert_eq!(j.get(id).unwrap().state, UploadState::Failed);
}

#[test]
fn mutations_are_claimed_acknowledged_and_reconciled() {
    let mut j = journal();
    let request = mutation(MutationIntent::CreateFolder {
        parent: "root".into(),
        name: "New".into(),
    });
    let record = j.enqueue_mutation(request, true).unwrap();
    assert_eq!(record.state, MutationState::Pending);
    let active = j.claim_mutation().unwrap().unwrap();
    assert_eq!(active.state, MutationState::Applying);
    assert!(j.claim_mutation().unwrap().is_none());
    let attempt = active.attempt.unwrap();
    assert_eq!(
        j.acknowledge_mutation(
            record.id,
            attempt.wrapping_add(1),
            MutationReceipt::Upsert(folder("f", "root", "New")),
            true
        ),
        Err(JournalError::Stale)
    );
    assert_eq!(
        j.acknowledge_mutation(
            record.id,
            attempt,
            MutationReceipt::Upsert(folder("f", "root", "New")),
            true
        ),
        Ok(MutationState::Applied)
    );
    match j.operation(record.id).unwrap() {
        Operation::Mutation(done) => assert_eq!(done.state, MutationState::Applied),
        Operation::Upload(_) => panic!("not an upload"),
    }
}

fn verified_relocation(after: Node) -> Result<MutationState, JournalError> {
    let mut j = journal();
    let record = j
        .enqueue_mutation(
            mutation(MutationIntent::Relocate {
                before: file("r1", "root", "x.txt", 5, "1"),
                parent: "root".into(),
                name: "y.txt".into(),
            }),
            true,
        )
        .unwrap();
    let active = j.claim_mutation().unwrap().unwrap();
    j.defer_mutation(
        record.id,
        active.attempt.unwrap(),
        MutationState::VerifyRequired,
        0,
    )
    .unwrap();
    let verifying = j.claim_mutation().unwrap().unwrap();
    assert_eq!(verifying.state, MutationState::Verifying);
    j.acknowledge_mutation(
        record.id,
        verifying.attempt.unwrap(),
        MutationReceipt::Upsert(after),
        true,
    )
}

#[test]
fn a_verified_relocation_never_adopts_another_edit() {
    assert_eq!(
        verified_relocation(file("r1", "root", "y.txt", 5, "1")),
        Ok(MutationState::Applied)
    );
    assert_eq!(
        verified_relocation(file("r1", "root", "y.txt", 6, "1")),
        Ok(MutationState::Conflict)
    );
    assert_eq!(
        verified_relocation(file("r1", "root", "y.txt", 5, "2")),
        Ok(MutationState::Conflict)
    );
    let unversioned = Node {
        content_version: None,
        ..file("r1", "root", "y.txt", 5, "2")
    };
    assert_eq!(
        verified_relocation(unversioned),
        Ok(MutationState::NeedsReview)
    );
}

#[test]
fn a_receipt_that_does_not_answer_the_request_is_refused() {
    let mut j = journal();
    let record = j
        .enqueue_mutation(removal(file("r1", "root", "x.txt", 5, "1")), true)
        .unwrap();
    let active = j.claim_mutation().unwrap().unwrap();
    assert_eq!(
        j.acknowledge_mutation(
            record.id,
            active.attempt.unwrap(),
            MutationReceipt::Removed("other".into()),
            false
        ),
        Err(JournalError::Corrupt)
    );
    assert_eq!(
        j.mutation(record.id).unwrap().state,
        MutationState::Applying
    );
}

#[test]
fn a_stuck_removal_can_be_discarded() {
    let mut j = journal();
    let object = j
        .observe_namespace_file(scope(), file("r1", "root", "x.txt", 5, "1"), true)
        .unwrap();
    let gone = j
        .unlink_namespace_file(object.id, object.revision, false, true)
        .unwrap();
    assert!(gone.object.unlinked);
    let active = j.claim_mutation().unwrap().unwrap();
    j.defer_mutation(
        gone.mutation.id,
        active.attempt.unwrap(),
        MutationState::Conflict,
        0,
    )
    .unwrap();
    assert_eq!(j.stuck_mutations(), 1);
    assert_eq!(j.stuck_removals(10), [gone.mutation.id]);
    j.discard_stuck_removal(gone.mutation.id).unwrap();
    assert_eq!(j.stuck_mutations(), 0);
}

#[test]
fn readers_hold_back_the_removal_of_a_file() {
    let mut j = journal();
    let object = j
        .observe_namespace_file(scope(), file("r1", "root", "x.txt", 5, "1"), true)
        .unwrap();
    assert!(matches!(
        j.unlink_namespace_file(object.id, object.revision + 1, true, true),
        Err(JournalError::Stale)
    ));
    let gone = j
        .unlink_namespace_file(object.id, object.revision, true, true)
        .unwrap();
    assert!(!gone.mutation.local_ready);
    assert!(j.claim_mutation().unwrap().is_none());
    let waiting = j.unlinked_readers(0, 32);
    assert_eq!(waiting.len(), 1);
    assert_eq!(waiting[0].id, gone.mutation.id);
    j.release_unlinked_readers(gone.mutation.id).unwrap();
    assert!(j.unlinked_readers(0, 32).is_empty());
    let active = j.claim_mutation().unwrap().unwrap();
    assert_eq!(active.id, gone.mutation.id);
    assert_eq!(
        j.acknowledge_mutation(
            active.id,
            active.attempt.unwrap(),
            MutationReceipt::Removed("r1".into()),
            true
        ),
        Ok(MutationState::Applied)
    );
    assert!(matches!(
        j.unlink_namespace_file(object.id, gone.object.revision, true, true),
        Err(JournalError::Stale)
    ));
}

#[test]
fn a_restart_releases_every_reader_barrier() {
    let mut j = journal();
    for name in ["x", "y", "z"] {
        let object = j
            .observe_namespace_file(scope(), file(name, "root", name, 5, "1"), true)
            .unwrap();
        j.unlink_namespace_file(object.id, object.revision, true, true)
            .unwrap();
    }
    assert_eq!(j.unlinked_readers(0, 2).len(), 2);
    j.recover_unlinked_readers().unwrap();
    assert!(j.unlinked_readers(0, 32).is_empty());
}

#[test]
fn a_saved_file_is_handed_back_once_everything_is_acknowledged() {
    let mut j = journal();
    let node = file("r1", "root", "x.txt", 5, "1");
    let object = j.observe_namespace_file(scope(), node.clone(), true).unwrap();
    let mut source = j.reserve_working(5, NOTHING).unwrap();
    source.write_chunk(5).unwrap();
    let stream = j
        .publish_working(scope(), node, false, source, true, true)
        .unwrap();
    assert!(!stream.dirty);
    let object = j.namespace_object(object.id).unwrap();
    assert_eq!(object.working_file, Some(stream.id));
    j.begin_write(stream.id, 5, 3, 5, 5).unwrap();
    let changed = j.finish_change(stream.id, 8).unwrap();
    assert!(changed.dirty);
    assert_eq!(changed.node.size, 8);
    let (_, intent) = j.seal_plan(stream.id).unwrap().unwrap();
    match intent {
        UploadIntent::Replace {
            item,
            expected_etag,
        } => assert_eq!((item.as_str(), expected_etag.as_str()), ("r1", "e-1")),
        other => panic!("unexpected {other:?}"),
    }
    let upload = j
        .seal_working(stream.id, true, NOTHING, sealed(b"hello+++"))
        .unwrap()
        .unwrap();
    assert!(j.seal_plan(stream.id).unwrap().is_none());
    let object = j.namespace_object(object.id).unwrap();
    assert_eq!(object.latest, Some(upload.id));
    assert_eq!(j.namespace_is_clean(&object), Ok(false));
    let active = claimed(&mut j);
    let remote = file("r1", "root", "x.txt", 8, "2");
    j.acknowledge(upload.id, active.attempt.unwrap(), remote.clone())
        .unwrap();
    let object = j.namespace_object(object.id).unwrap();
    assert_eq!(j.namespace_is_clean(&object), Ok(true));
    assert_eq!(j.handoff_candidates(None, 16), [object.id]);
    let following = j
        .handoff_namespace(object.id, object.revision, remote, true)
        .unwrap();
    assert!(following.follows_remote);
    assert_eq!(following.working_file, None);
    assert!(j.handoff_candidates(None, 16).is_empty());
    assert_eq!(j.retired_working(1000), [stream.id]);
    assert!(j.retired_working(0).is_empty());
    assert_eq!(j.may_delete_stream(stream.id), Ok(true));
    j.forget_retired(stream.id);
    assert!(j.retired_working(1000).is_empty());
}

#[test]
fn a_short_source_never_becomes_a_stream() {
    let mut j = journal();
    let mut source = j.reserve_working(5, NOTHING).unwrap();
    source.write_chunk(3).unwrap();
    assert_eq!(source.write_chunk(3), Err(JournalError::Corrupt));
    let mut short = j.reserve_working(5, NOTHING).unwrap();
    short.write_chunk(3).unwrap();
    assert!(matches!(
        j.publish_working(
            scope(),
            file("r1", "root", "x.txt", 5, "1"),
            false,
            short,
            true,
            true
        ),
        Err(JournalError::Corrupt)
    ));
    assert!(matches!(
        j.reserve_working(QUOTA + 1, NOTHING),
        Err(JournalError::Quota)
    ));
}

#[test]
fn files_wait_for_the_directory_they_are_created_in() {
    let mut j = journal();
    let directory = j
        .create_namespace_directory(scope(), "root".into(), "New".into(), true)
        .unwrap();
    assert_eq!(directory.node.kind, NodeKind::Folder);
    let upload = j
        .enqueue(
            scope(),
            UploadIntent::Create {
                parent: directory.node.id.clone(),
                name: "x.txt".into(),
            },
            true,
            NOTHING,
            sealed(b"hello"),
        )
        .unwrap();
    assert_eq!(j.next_pending(), None);
    let active = j.claim_mutation().unwrap().unwrap();
    j.acknowledge_mutation(
        active.id,
        active.attempt.unwrap(),
        MutationReceipt::Upsert(folder("f1", "root", "New")),
        true,
    )
    .unwrap();
    assert_eq!(j.resolve_ready_destinations(), Ok(true));
    match j.get(upload.id).unwrap().intent {
        UploadIntent::Create { parent, .. } => assert_eq!(parent, "f1"),
        other => panic!("unexpected {other:?}"),
    }
    assert_eq!(j.next_pending(), Some(upload.id));
    let directory = j.namespace_object(directory.id).unwrap();
    assert_eq!(j.provider_parent(&scope(), &directory.node.id), Ok("f1".to_string()));
}

#[test]
fn a_directory_is_removed_only_when_it_is_empty() {
    let mut j = journal();
    let directory = j
        .create_namespace_directory(scope(), "root".into(), "New".into(), true)
        .unwrap();
    let active = j.claim_mutation().unwrap().unwrap();
    j.acknowledge_mutation(
        active.id,
        active.attempt.unwrap(),
        MutationReceipt::Upsert(folder("f1", "root", "New")),
        true,
    )
    .unwrap();
    let directory = j.namespace_object(directory.id).unwrap();
    let removed = j
        .remove_namespace_directory(directory.id, directory.revision, true)
        .unwrap();
    assert!(removed.object.unlinked);
    assert!(matches!(
        removed.mutation.request.intent,
        MutationIntent::RemoveFolder { .. }
    ));
    assert!(matches!(
        j.remove_namespace_directory(directory.id, removed.object.revision, true),
        Err(JournalError::Stale)
    ));
}

#[test]
fn a_moved_file_keeps_its_identity() {
    let mut j = journal();
    let object = j
        .observe_namespace_file(scope(), file("r1", "root", "x.txt", 5, "1"), true)
        .unwrap();
    assert_eq!(j.check_relocation(object.id, object.revision), Ok(None));
    assert_eq!(
        j.check_relocation(object.id, object.revision + 1),
        Err(JournalError::Stale)
    );
    assert_eq!(j.check_relocation(object.id + 1, 0), Err(JournalError::Missing));
    let moved = j
        .relocate_namespace_file(
            object.id,
            object.revision,
            "root".into(),
            "y.txt".into(),
            true,
            true,
            NOTHING,
            sealed(b""),
            true,
        )
        .unwrap();
    let after = j.namespace_object(object.id).unwrap();
    assert_eq!(after.node.name, "y.txt");
    assert_eq!(after.node.id, object.node.id);
    assert_eq!(after.latest, Some(moved.id));
    assert_eq!(j.namespace_for_operation(moved.id).unwrap().id, object.id);
    let listing = j
        .namespace_overlay(
            &scope(),
            "root",
            vec![file("r1", "root", "x.txt", 5, "1"), file("r2", "root", "z.txt", 5, "1")],
        )
        .unwrap();
    let mut names: Vec<&str> = listing.nodes.iter().map(|n| n.name.as_str()).collect();
    names.sort();
    assert_eq!(names, ["y.txt", "z.txt"]);
    assert!(listing.conflicts.is_empty());
}

#[test]
fn an_unacknowledged_name_hides_its_remote_rival() {
    let mut j = journal();
    j.configure_namespace(&scope(), NamespaceNames::Insensitive).unwrap();
    let object = j
        .observe_namespace_file(scope(), file("r1", "root", "x.txt", 5, "1"), true)
        .unwrap();
    j.relocate_namespace_file(
        object.id,
        object.revision,
        "root".into(),
        "Y.txt".into(),
        true,
        true,
        NOTHING,
        sealed(b""),
        true,
    )
    .unwrap();
    let listing = project_namespace(
        &j.objects,
        &scope(),
        "root",
        vec![file("r9", "root", "y.TXT", 1, "1")],
    )
    .unwrap();
    assert_eq!(listing.nodes.len(), 1);
    assert_eq!(listing.nodes[0].name, "Y.txt");
    assert_eq!(listing.conflicts.len(), 1);
    assert_eq!(listing.conflicts[0].remote.id, "r9");
}

#[test]
fn one_file_replaces_another_under_its_name() {
    let mut j = journal();
    let victim = j
        .observe_namespace_file(scope(), file("v1", "root", "report.txt", 5, "1"), true)
        .unwrap();
    let source = j
        .observe_namespace_file(scope(), file("s1", "root", "report.tmp", 5, "1"), true)
        .unwrap();
    let record = j
        .replace_unfetched_file(
            source.id,
            source.revision,
            victim.id,
            victim.revision,
            false,
            true,
            true,
        )
        .unwrap();
    assert_eq!((record.source, record.victim), (source.id, victim.id));
    assert_eq!(j.get(record.id).unwrap().state, UploadState::Preparing);
    assert_eq!(j.namespace_object(source.id).unwrap().node.name, "report.txt");
    assert!(j.namespace_object(victim.id).unwrap().unlinked);
    let (active, preparation) = j.claim_preparation().unwrap().unwrap();
    assert_eq!(active.id, record.id);
    assert_eq!(preparation.remote.as_ref().unwrap().id, "s1");
    let attempt = active.attempt.unwrap();
    assert!(matches!(
        j.active_preparation(record.id, attempt.wrapping_add(1)),
        Err(JournalError::Stale)
    ));
    j.defer_preparation_at(100, record.id, attempt, false, 4).unwrap();
    assert!(j.claim_preparation_at(103, 1).unwrap().is_none());
    let (active, _) = j.claim_preparation_at(104, 2).unwrap().unwrap();
    assert_eq!(active.failed_attempts, 1);
}

#[test]
fn temporary_captures_name_their_owner() {
    let name = temporary_name(0x1234_5678_9abc_4def_8123_4567_89ab_cdef);
    assert!(name.contains("12345678-9abc-4def-8123-456789abcdef"), "{name}");
    assert_eq!(preparation_of("unrelated"), None);
}

#[test]
fn captured_ancestors_keep_their_route() {
    let mut j = journal();
    j.capture_namespace_ancestors(vec![
        (scope(), folder("f2", "f1", "Inner")),
        (scope(), folder("f1", "root", "Outer")),
    ])
    .unwrap();
    let inner = j.namespace_by_remote(&scope(), "f2").unwrap();
    assert_eq!(inner.node.name, "Inner");
    assert_eq!(inner.node.parent_id.as_deref(), Some("f1"));
    let shortcut = Node {
        kind: NodeKind::Shortcut,
        target: Some(RemoteRef {
            collection: "d2".into(),
            item: "t".into(),
            kind: Some(NodeKind::Folder),
        }),
        ..folder("s", "root", "Link")
    };
    assert!(shortcut.clone().same(&shortcut));
    let before = j.namespace_objects().len();
    assert!(j
        .capture_namespace_ancestors(vec![(scope_of("b"), folder("f9", "root", "Other"))])
        .is_err());
    assert_eq!(j.namespace_objects().len(), before);
}

#[test]
fn a_removal_after_an_upload_follows_its_receipt() {
    let mut j = journal();
    let upload = queued(&mut j, "x.txt");
    let before = file("local", "root", "x.txt", 5, "cirrove-pending-receipt");
    let record = j
        .enqueue_mutation_after(upload.id, removal(before), true)
        .unwrap();
    assert!(!record.base.unwrap().resolved);
    assert!(j.claim_mutation().unwrap().is_none());
    let active = claimed(&mut j);
    j.acknowledge(
        upload.id,
        active.attempt.unwrap(),
        file("r1", "root", "x.txt", 5, "1"),
    )
    .unwrap();
    assert_eq!(j.ready_batch(), vec![Ready::Mutation(record.id)]);
    j.resolve_mutation(record.id, true).unwrap();
    let removing = j.claim_mutation().unwrap().unwrap();
    match removing.request.intent {
        MutationIntent::RemoveFile { before } => {
            assert_eq!(before.id, "r1");
            assert_eq!(before.etag.as_deref(), Some("e-1"));
        }
        other => panic!("unexpected {other:?}"),
    }
}

#[test]
fn journals_without_a_queue_get_one() {
    let mut j = journal();
    let first = queued(&mut j, "one");
    let second = queued(&mut j, "two");
    let upload = claimed(&mut j);
    j.acknowledge(upload.id, upload.attempt.unwrap(), file("r", "root", "one", 5, "v"))
        .unwrap();
    let mut legacy = j.copy();
    legacy.queue = Table::new();
    legacy.resources = ResourceTable::new();
    legacy.last_sequence = 0;
    legacy.upgrade(2).unwrap();
    assert_eq!(legacy.last_sequence, 2);
    for (record, complete) in [(&first, true), (&second, false)] {
        assert_eq!(
            legacy.queue.get(record.id),
            Some(&QueueRow { sequence: record.sequence, complete })
        );
    }
    assert_eq!(legacy.next_pending(), Some(second.id));
    let third = queued(&mut legacy, "two");
    assert_eq!(third.sequence, 3);
    assert_eq!(legacy.next_pending(), Some(second.id));
    let mut known = j.copy();
    known.upgrade(3).unwrap();
    assert_eq!(known.queue.ids(), j.queue.ids());
    assert_eq!(known.clock, j.clock + 1);
    let mut current = j.copy();
    current.upgrade(SCHEMA_VERSION).unwrap();
    assert_eq!(current.clock, j.clock);
}

#[test]
fn journals_without_a_namespace_get_one() {
    let mut j = journal();
    let mut source = j.reserve_working(5, NOTHING).unwrap();
    source.write_chunk(5).unwrap();
    let stream = j
        .publish_working(scope(), file("r1", "root", "name", 5, "1"), false, source, true, true)
        .unwrap();
    j.begin_write(stream.id, 0, 5, 5, 5).unwrap();
    j.finish_change(stream.id, 5).unwrap();
    let upload = j
        .seal_working(stream.id, true, NOTHING, sealed(b"hello"))
        .unwrap()
        .unwrap();
    let attempt = claimed(&mut j).attempt.unwrap();
    j.acknowledge(upload.id, attempt, file("r1", "root", "name", 5, "2"))
        .unwrap();
    let mut legacy = j.copy();
    legacy.objects = Table::new();
    legacy.operations = Table::new();
    legacy.changes = Table::new();
    legacy.clock = 0;
    legacy.upgrade(6).unwrap();
    let object = legacy.namespace_by_working(stream.id).unwrap();
    assert_eq!(object.remote.as_ref().unwrap().etag.as_deref(), Some("e-2"));
    assert_eq!(object.remote_sequence, upload.sequence);
    assert_eq!(legacy.operations.get(upload.id), Some(&object.id));
    assert_eq!(legacy.changes.get(object.id), Some(&legacy.clock));
    // A second time the stream has its object, and nothing changes.
    let clock = legacy.clock;
    assert_eq!(legacy.adopt_namespace(), Err(JournalError::Stale));
    assert_eq!(legacy.clock, clock);
}

#[test]
fn journals_without_successors_get_them() {
    let mut j = journal();
    let first = queued(&mut j, "one");
    let second = j
        .enqueue_after(first.id, true, NOTHING, sealed(b"again"))
        .unwrap();
    let mut legacy = j.copy();
    legacy.successors = Table::new();
    legacy.upgrade(5).unwrap();
    assert_eq!(legacy.successors.get(first.id), Some(&second.id));
}

#[test]
fn a_place_is_complete_only_while_its_upload_is_confirmed() {
    let mut j = journal();
    let first = queued(&mut j, "x.txt");
    let second = queued(&mut j, "y.txt");
    assert!(first.sequence < second.sequence);
    let place = |j: &UploadJournal, id: u128| {
        let row = j.queue.get(id).unwrap();
        (row.sequence, row.complete)
    };
    let id = j.next_upload_at(10, UploadState::Pending).unwrap();
    let active = j.claim_upload(10, 77, id, Ok(())).unwrap().unwrap();
    assert_eq!(place(&j, id), (first.sequence, false));
    j.stop_attempt(id, active.attempt.unwrap(), UploadState::Failed)
        .unwrap();
    assert_eq!(j.get(id).unwrap().state, UploadState::Failed);
    assert_eq!(place(&j, id), (first.sequence, false));
    j.request_retry(id).unwrap();
    let active = j.claim_next_verification_at(40, 78).unwrap().unwrap();
    let mut found = file("remote", "parent", "x.txt", first.size, "one");
    found.parent_id = match &first.intent {
        UploadIntent::Create { parent, .. } => Some(parent.clone()),
        UploadIntent::Replace { .. } => None,
    };
    j.acknowledge(id, active.attempt.unwrap(), found).unwrap();
    assert_eq!(place(&j, id), (first.sequence, true));
    assert_eq!(place(&j, second.id), (second.sequence, false));
    j.recover_attempts();
    assert_eq!(place(&j, id), (first.sequence, true));
    assert_eq!(j.get(id).unwrap().state, UploadState::Uploaded);
}
