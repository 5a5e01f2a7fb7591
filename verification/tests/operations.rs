use cirrove_service::filesystem::cache::Cache;
use cirrove_service::filesystem::projection::{answer_for, Projection, WriteError};
use cirrove_service::journal::records::{
    JournalError, MutationState, UploadJournal, UploadRecord, UploadState, WorkingFile,
};
use cirrove_service::journal::queue::mutation_resources;
use cirrove_service::journal::sealing::{Seal, Sealed, Usage};
use cirrove_service::journal::tables::Resource;
use cirrove_service::model::{
    MutationIntent, MutationRequest, Node, NodeKind, Scope, UploadIntent,
};

const QUOTA: u64 = 1 << 20;
const NOTHING: Usage = Usage { bytes: 0, files: 0 };

fn scope() -> Scope {
    Scope {
        account: "a".into(),
        provider: "fixture".into(),
        collection: "d".into(),
    }
}

fn journal() -> UploadJournal {
    UploadJournal::new("a".into(), QUOTA)
}

fn file(id: &str, name: &str, version: &str) -> Node {
    Node {
        id: id.into(),
        parent_id: Some("root".into()),
        name: name.into(),
        kind: NodeKind::File,
        size: 5,
        modified_unix: 1,
        etag: Some(format!("e-{version}")),
        content_version: Some(version.into()),
        target: None,
    }
}

fn sealed(bytes: &[u8]) -> Sealed {
    let mut seal = Seal::start(QUOTA, NOTHING).unwrap();
    seal.write(bytes).unwrap();
    seal.finish()
}

fn queued(journal: &mut UploadJournal, name: &str) -> UploadRecord {
    let intent = UploadIntent::Create {
        parent: "root".into(),
        name: name.into(),
    };
    journal
        .enqueue(scope(), intent, true, NOTHING, sealed(b"hello"))
        .unwrap()
}

fn removal(id: &str) -> MutationRequest {
    MutationRequest {
        scope: scope(),
        intent: MutationIntent::RemoveFile {
            before: file(id, id, "1"),
        },
    }
}

#[test]
fn namespace_changes_are_listed_behind_a_place() {
    let mut j = journal();
    let first = j.enqueue_mutation(removal("one"), true).unwrap();
    let second = j.enqueue_mutation(removal("two"), true).unwrap();
    let ids = |after: u64, limit: u32| -> Vec<u128> {
        j.list_mutations(after, limit).iter().map(|m| m.id).collect()
    };
    assert_eq!(ids(0, 10), [first.id, second.id]);
    assert_eq!(ids(0, 1), [first.id]);
    assert_eq!(ids(first.sequence, 10), [second.id]);
    assert!(ids(second.sequence, 10).is_empty());
}

#[test]
fn a_failed_change_is_verified_before_it_is_tried_again() {
    let mut j = journal();
    let record = j.enqueue_mutation(removal("one"), true).unwrap();
    assert_eq!(
        j.request_mutation_retry(record.id),
        Err(JournalError::Stale)
    );
    assert_eq!(j.request_mutation_retry(1), Err(JournalError::Missing));
    let attempt = j.claim_mutation().unwrap().unwrap().attempt.unwrap();
    j.defer_mutation(record.id, attempt, MutationState::Failed, 0)
        .unwrap();
    j.request_mutation_retry(record.id).unwrap();
    assert_eq!(
        j.mutation(record.id).unwrap().state,
        MutationState::VerifyRequired
    );
    assert_eq!(
        j.claim_mutation().unwrap().unwrap().state,
        MutationState::Verifying
    );
}

#[test]
fn prerequisites_of_an_upload_are_kept() {
    let mut j = journal();
    let first = queued(&mut j, "one");
    let other = queued(&mut j, "other");
    let second = j
        .enqueue_after_all(first.id, &vec![other.id], true, NOTHING, sealed(b"again"))
        .unwrap();
    assert_eq!(j.operation_prerequisites(second.id), Ok(vec![other.id]));
    assert_eq!(j.operation_prerequisites(first.id), Ok(vec![]));
    assert_eq!(j.operation_prerequisites(7), Err(JournalError::Missing));
}

#[test]
fn only_an_uncertain_upload_is_claimed_for_verification() {
    let mut j = journal();
    let record = queued(&mut j, "one");
    assert!(matches!(
        j.claim_verification(record.id),
        Err(JournalError::Stale)
    ));
    let active = j.claim_next(record.id, Ok(())).unwrap().unwrap();
    j.defer_attempt(record.id, active.attempt.unwrap(), UploadState::VerifyRequired, 60)
        .unwrap();
    let verifying = j.claim_verification(record.id).unwrap();
    assert_eq!(verifying.state, UploadState::Verifying);
    assert!(verifying.attempt.is_some());
    assert_ne!(verifying.attempt, active.attempt);
    assert!(matches!(j.claim_verification(9), Err(JournalError::Missing)));
}

#[test]
fn a_stream_moves_with_its_object() {
    let mut j = journal();
    let mut source = j.reserve_working(5, NOTHING).unwrap();
    source.write_chunk(5).unwrap();
    let stream = j
        .publish_working(scope(), file("r1", "x.txt", "1"), false, source, true, true)
        .unwrap();
    let local = stream.node.id.clone();
    let found = j.working_by_identity(&scope(), &local).unwrap();
    assert_eq!(found.id, stream.id);
    assert!(j.working_by_identity(&scope(), "elsewhere").is_none());
    let moved = j
        .relocate_working(
            stream.id,
            "root".into(),
            "y.txt".into(),
            true,
            true,
            NOTHING,
            sealed(b""),
            true,
        )
        .unwrap();
    assert_eq!(j.working_file(stream.id).unwrap().node.name, "y.txt");
    assert_eq!(j.working_file(stream.id).unwrap().latest, Some(moved.id));
    let object = j.namespace_by_working(stream.id).unwrap();
    assert_eq!(object.node.name, "y.txt");
    let mut p = Projection::new();
    let batch = j.namespace_publication(p.frontier).map_err(answer_for).unwrap();
    p.publish_batch(&batch).unwrap();
    assert_eq!(p.reference_view(&scope(), &"r1".to_string()), Ok(Some(local)));
    assert_eq!(p.reference_view(&scope(), &"r2".to_string()), Ok(None));
    let object = j.namespace_object(object.id).unwrap();
    j.unlink_namespace_file(object.id, object.revision, false, true)
        .unwrap();
    let batch = j.namespace_publication(p.frontier).map_err(answer_for).unwrap();
    p.publish_batch(&batch).unwrap();
    assert_eq!(
        p.reference_view(&scope(), &"r1".to_string()),
        Err(WriteError::NotFound)
    );
}

#[test]
fn an_unfetched_source_is_captured_before_it_is_published() {
    let mut j = journal();
    let victim = j
        .observe_namespace_file(scope(), file("v1", "report.txt", "1"), true)
        .unwrap();
    let source = j
        .observe_namespace_file(scope(), file("s1", "report.tmp", "1"), true)
        .unwrap();
    let plan = j
        .plan_replacement(source.id, source.revision, victim.id, victim.revision, false)
        .unwrap();
    assert!(matches!(
        j.replacement_cleanup(&plan).intent,
        MutationIntent::RemoveFile { before } if before.id == "s1"
    ));
    let record = j
        .replace_unfetched_file(
            source.id,
            source.revision,
            victim.id,
            victim.revision,
            true,
            true,
            true,
        )
        .unwrap();
    assert_eq!(j.replacement(record.id).unwrap().victim, victim.id);
    let waiting = j.replacement_readers(0, 10);
    assert_eq!(waiting.len(), 1);
    assert_eq!(waiting[0].1.id, record.id);
    assert!(j.replacement_readers(waiting[0].0, 10).is_empty());
    let attempt = j.claim_preparation().unwrap().unwrap().0.attempt.unwrap();
    j.defer_preparation(record.id, attempt, false, 0).unwrap();
    assert_eq!(
        j.defer_preparation(record.id, attempt, false, 0),
        Err(JournalError::Stale)
    );
    let attempt = j.claim_preparation().unwrap().unwrap().0.attempt.unwrap();
    let mut filling = j.reserve_preparation(record.id, attempt, NOTHING).unwrap();
    filling.write_chunk(5).unwrap();
    let digest = sealed(b"hello").sha256;
    j.record_capture(record.id, attempt, filling, true, None, NOTHING, digest.clone())
        .unwrap();
    assert_eq!(
        j.record_capture(record.id, attempt, filling, true, Some("other"), NOTHING, digest.clone()),
        Err(JournalError::Corrupt)
    );
    j.finish_preparation(record.id, attempt, digest.clone(), Some(filling), true)
        .unwrap();
    let upload = j.get(record.id).unwrap();
    assert_eq!((upload.state, upload.sha256), (UploadState::Pending, digest));
    assert!(j.namespace_object(source.id).unwrap().working_file.is_some());
    // Readers of the victim hold the publication back.
    assert_eq!(j.next_pending(), None);
    j.release_replacement_readers(record.id).unwrap();
    assert!(j.replacement_readers(0, 10).is_empty());
    assert_eq!(j.next_pending(), Some(record.id));
}

#[test]
fn a_disabled_cache_keeps_nothing() {
    let mut cache: Cache<u32> = Cache::new(100);
    cache.keep(1, 7, 10);
    cache.disable();
    assert!(cache.peek(1).is_none());
    cache.keep(1, 7, 10);
    assert!(cache.peek(1).is_none());
}

#[test]
fn a_source_without_bytes_is_told_apart_before_the_victim_is_looked_at() {
    let mut j = journal();
    let source = j
        .observe_namespace_file(scope(), file("s1", "report.tmp", "1"), true)
        .unwrap();
    let mut filling = j.reserve_working(5, NOTHING).unwrap();
    filling.write_chunk(5).unwrap();
    let stream = j
        .publish_working(scope(), file("v1", "report.txt", "1"), false, filling, true, true)
        .unwrap();
    j.begin_write(stream.id, 0, 5, 5, 5).unwrap();
    j.finish_change(stream.id, 5).unwrap();
    let victim = j.namespace_by_working(stream.id).unwrap();
    assert_eq!(
        j.replace_namespace_file(
            source.id,
            source.revision,
            victim.id,
            victim.revision,
            false,
            true,
            true,
            NOTHING,
            sealed(b"hello"),
        )
        .err(),
        Some(JournalError::Intent)
    );
    assert_eq!(
        j.replace_unfetched_file(
            source.id,
            source.revision,
            victim.id,
            victim.revision,
            false,
            true,
            true,
        )
        .err(),
        Some(JournalError::Stale)
    );
}

#[test]
fn a_rename_that_differs_in_case_claims_its_name_once() {
    let request = MutationRequest {
        scope: scope(),
        intent: MutationIntent::Relocate {
            before: file("i", "A", "1"),
            parent: "root".into(),
            name: "a".into(),
        },
    };
    let keys = mutation_resources(&request).unwrap();
    assert_eq!(keys.len(), 2);
    assert!(matches!(&keys[0], Resource::Item { item, .. } if item == "i"));
    assert!(matches!(
        &keys[1],
        Resource::Name { parent, name, .. } if parent == "root" && name == "a"
    ));
    let moved = MutationRequest {
        scope: scope(),
        intent: MutationIntent::Relocate {
            before: file("i", "b", "1"),
            parent: "other".into(),
            name: "c".into(),
        },
    };
    let keys = mutation_resources(&moved).unwrap();
    assert_eq!(keys.len(), 3);
    assert!(keys[0].before(&keys[1]) && keys[1].before(&keys[2]));
    assert!(matches!(&keys[1], Resource::Name { parent, .. } if parent == "other"));
}

/// A published stream with unsaved bytes.
fn unsaved(j: &mut UploadJournal) -> WorkingFile {
    let mut source = j.reserve_working(5, NOTHING).unwrap();
    source.write_chunk(5).unwrap();
    let stream = j
        .publish_working(scope(), file("r1", "x.txt", "1"), false, source, true, true)
        .unwrap();
    j.begin_write(stream.id, 0, 9, 5, 5).unwrap();
    let stream = j.finish_change(stream.id, 9).unwrap();
    assert!(stream.dirty);
    stream
}

#[test]
fn unsaved_bytes_are_saved_before_their_stream_is_relocated() {
    let mut j = journal();
    let stream = unsaved(&mut j);
    let form = j
        .relocation_form(stream.id, 9, &"root".to_string(), &"y.txt".to_string())
        .unwrap();
    assert!(matches!(
        form.intent,
        MutationIntent::Relocate { before, .. } if before.size == 9 && before.etag.is_some()
    ));
    let moved = j
        .relocate_working(
            stream.id,
            "root".into(),
            "y.txt".into(),
            true,
            true,
            NOTHING,
            sealed(b"new bytes"),
            true,
        )
        .unwrap();
    let save = moved.base.unwrap().predecessor;
    let upload = j.get(save).unwrap();
    assert_eq!((upload.size, upload.working_file), (9, Some(stream.id)));
    assert_eq!(upload.sha256, sealed(b"new bytes").sha256);
    assert!(upload.sequence < moved.sequence);
    let after = j.working_file(stream.id).unwrap();
    assert!(!after.dirty);
    assert_eq!((after.node.name.as_str(), after.latest), ("y.txt", Some(moved.id)));
}

#[test]
fn unsaved_bytes_stay_saved_where_their_relocation_is_refused() {
    let mut j = journal();
    let stream = unsaved(&mut j);
    let object = j.namespace_by_working(stream.id).unwrap();
    let refused = |j: &mut UploadJournal, named: bool, savable: bool, parent: &str| {
        j.relocate_namespace_file(
            object.id,
            object.revision,
            parent.into(),
            "y.txt".into(),
            named,
            savable,
            NOTHING,
            sealed(b"new bytes"),
            false,
        )
        .err()
    };
    assert_eq!(refused(&mut j, false, true, "root"), Some(JournalError::Intent));
    assert_eq!(
        refused(&mut j, true, true, &stream.node.id),
        Some(JournalError::Intent)
    );
    assert_eq!(refused(&mut j, true, false, "root"), Some(JournalError::Intent));
    assert!(j.working_file(stream.id).unwrap().dirty);
    // The bytes are saved, and only the request behind them is refused.
    assert_eq!(refused(&mut j, true, true, "root"), Some(JournalError::Intent));
    let after = j.working_file(stream.id).unwrap();
    assert!(!after.dirty);
    assert_eq!(after.node.name, "x.txt");
    assert_eq!(j.get(after.latest.unwrap()).unwrap().size, 9);
    assert_eq!(refused(&mut j, true, true, "root"), Some(JournalError::Stale));
}

#[test]
fn a_restart_during_a_capture_keeps_its_gate_and_refuses_nothing() {
    let mut j = journal();
    let victim = j
        .observe_namespace_file(scope(), file("v1", "report.txt", "1"), true)
        .unwrap();
    let source = j
        .observe_namespace_file(scope(), file("s1", "report.tmp", "1"), true)
        .unwrap();
    let record = j
        .replace_unfetched_file(
            source.id,
            source.revision,
            victim.id,
            victim.revision,
            false,
            true,
            true,
        )
        .unwrap();
    assert!(j.replacement(record.id).unwrap().local_ready);
    j.claim_preparation().unwrap().unwrap();
    // The process ends here, and the next one recovers.
    j.recover_attempts();
    j.close_gates();
    j.recover_unlinked_readers().unwrap();
    j.recover_replacement_readers().unwrap();
    assert_eq!(j.get(record.id).unwrap().state, UploadState::Preparing);
    assert!(!j.replacement(record.id).unwrap().local_ready);
    assert_eq!(j.replacement_readers(0, 10).len(), 1);
    // Readers may be preserved while the capture goes on.
    j.release_replacement_readers(record.id).unwrap();
    assert!(j.replacement(record.id).unwrap().local_ready);
    assert!(j.claim_preparation().unwrap().is_some());
}

#[test]
fn a_restart_lifts_the_barriers_of_fetched_sources() {
    let mut j = journal();
    let victim = j
        .observe_namespace_file(scope(), file("v1", "report.txt", "1"), true)
        .unwrap();
    let mut bytes = j.reserve_working(5, NOTHING).unwrap();
    bytes.write_chunk(5).unwrap();
    let stream = j
        .publish_working(scope(), file("s1", "report.tmp", "1"), false, bytes, true, true)
        .unwrap();
    let source = j.namespace_by_working(stream.id).unwrap();
    let record = j
        .replace_namespace_file(
            source.id,
            source.revision,
            victim.id,
            victim.revision,
            true,
            true,
            true,
            NOTHING,
            sealed(b"hello"),
        )
        .unwrap();
    assert!(!record.local_ready);
    j.recover_attempts();
    j.close_gates();
    j.recover_replacement_readers().unwrap();
    assert!(j.replacement(record.id).unwrap().local_ready);
    assert!(j.replacement_readers(0, 10).is_empty());
}
