use cirrove_service::filesystem::projection::{answer_for, Projection, WriteError};
use cirrove_service::filesystem::writeback::ReadSource;
use cirrove_service::journal::overlay::project_namespace;
use cirrove_service::journal::publication::NamespacePublication;
use cirrove_service::journal::records::{
    JournalError, ReplacementRecord, UploadJournal, WorkingFile,
};
use cirrove_service::journal::sealing::{Seal, Sealed, Usage};
use cirrove_service::model::{Id, Node, NodeKind, Scope};
use std::collections::HashMap;

struct Fixture {
    journal: UploadJournal,
    streams: HashMap<Id, Vec<u8>>,
}

fn scope() -> Scope {
    Scope {
        account: "publication".into(),
        provider: "fixture".into(),
        collection: "drive".into(),
    }
}

fn node(id: &str, name: &str, tag: &str) -> Node {
    Node {
        id: id.into(),
        parent_id: Some("root".into()),
        name: name.into(),
        kind: NodeKind::File,
        size: 3,
        etag: Some(tag.into()),
        content_version: Some(tag.into()),
        modified_unix: 1,
        target: None,
    }
}

impl Fixture {
    fn new() -> Self {
        Fixture {
            journal: UploadJournal::new(scope().account, 4096),
            streams: HashMap::new(),
        }
    }
    fn usage(&self) -> Usage {
        Usage {
            bytes: self.streams.values().map(|b| b.len() as u64).sum(),
            files: self.streams.len() as u64,
        }
    }
    fn sealed(&self, bytes: &[u8]) -> Sealed {
        let mut seal = Seal::start(4096, self.usage()).unwrap();
        seal.write(bytes).unwrap();
        seal.finish()
    }
    fn file(&mut self, id: &str, name: &str, bytes: &[u8]) -> WorkingFile {
        let mut source = self
            .journal
            .reserve_working(bytes.len() as u64, self.usage())
            .unwrap();
        source.write_chunk(bytes.len() as u64).unwrap();
        let file = self
            .journal
            .publish_working(scope(), node(id, name, "original"), false, source, true, true)
            .unwrap();
        self.streams.insert(file.id, bytes.to_vec());
        file
    }
    fn replace(&mut self, source: &WorkingFile, victim: &WorkingFile) -> ReplacementRecord {
        let from = self
            .journal
            .namespace_by_local(&scope(), &source.node.id)
            .unwrap();
        let to = self
            .journal
            .namespace_by_local(&scope(), &victim.node.id)
            .unwrap();
        let bytes = self.streams[&from.working_file.unwrap()].clone();
        let sealed = self.sealed(&bytes);
        let usage = self.usage();
        self.journal
            .replace_namespace_file(
                from.id,
                from.revision,
                to.id,
                to.revision,
                false,
                true,
                true,
                usage,
                sealed,
            )
            .unwrap()
    }
    fn ack(&mut self, replacement: &ReplacementRecord, tag: &str) {
        let id = self.journal.next_pending().unwrap();
        let upload = self.journal.claim_next(id, Ok(())).unwrap().unwrap();
        assert_eq!(upload.id, replacement.id);
        self.journal
            .acknowledge(
                upload.id,
                upload.attempt.unwrap(),
                node("target", "document", tag),
            )
            .unwrap();
    }
    fn catch_up(&self, p: &mut Projection) -> Result<bool, WriteError> {
        let batch = self
            .journal
            .namespace_publication(p.frontier)
            .map_err(answer_for)?;
        p.publish_batch(&batch)
    }
    fn bytes(&self, p: &Projection, local: &WorkingFile) -> Vec<u8> {
        let file = p
            .local_object(&scope(), &local.node.id)
            .unwrap()
            .working_file
            .unwrap();
        self.streams[&file].clone()
    }
}

fn owner(p: &Projection, id: &str) -> Option<Id> {
    p.owner(&scope(), &id.to_string())
}

#[test]
fn replacement_publication_transfers_all_bindings_in_any_order_and_retains_old_streams() {
    let mut j = Fixture::new();
    let old = j.file("target", "document", b"old");
    let new = j.file("source", "temporary", b"new");
    let mut p = Projection::new();
    j.catch_up(&mut p).unwrap();
    let source_id = p.local_object(&scope(), &new.node.id).unwrap().id;
    let victim_id = p.local_object(&scope(), &old.node.id).unwrap().id;
    let operation = j.replace(&new, &old);
    let local = j.journal.namespace_publication(p.frontier).unwrap();
    let local_through = local.through;
    assert_eq!(local.objects.len(), 3);
    p.publish_batch(&local).unwrap();
    assert!(p.local_object(&scope(), &old.node.id).unwrap().unlinked);
    assert_eq!(
        p.local_object(&scope(), &new.node.id).unwrap().node.name,
        "document"
    );
    j.ack(&operation, "published");
    let mut receipt = j.journal.namespace_publication(p.frontier).unwrap();
    assert_eq!(receipt.objects.len(), 3);
    // The target is still owned by the victim when the source comes first.
    receipt
        .objects
        .sort_by_key(|s| if s.object.id == source_id { 0 } else { 1 });
    p.publish_batch(&receipt).unwrap();
    assert_eq!(owner(&p, "target"), Some(source_id));
    assert_eq!(owner(&p, "source"), Some(operation.cleanup_object));
    assert!(!p.objects.get(victim_id).unwrap().remote_owned);
    assert_eq!(j.bytes(&p, &old), b"old");
    assert_eq!(j.bytes(&p, &new), b"new");
    let frontier = p.frontier;
    assert!(!p
        .publish_batch(&NamespacePublication {
            after: 0,
            through: local_through,
            objects: vec![]
        })
        .unwrap());
    assert_eq!(p.frontier, frontier);
    assert_eq!(owner(&p, "target"), Some(source_id));
    assert!(!j.catch_up(&mut p).unwrap());
}

#[test]
fn delayed_callbacks_coalesce_chained_replacements_including_the_newest_owner() {
    let mut j = Fixture::new();
    let old = j.file("target", "document", b"old");
    let first = j.file("first", "temp-one", b"one");
    let second = j.file("second", "temp-two", b"two");
    let mut p = Projection::new();
    j.catch_up(&mut p).unwrap();
    let base = p.frontier;
    let one = j.replace(&first, &old);
    let delayed = j.journal.namespace_publication(base).unwrap();
    let two = j.replace(&second, &first);
    j.ack(&one, "one");
    let middle = j.journal.namespace_publication(base).unwrap();
    // The second generation resolves against the first one's receipt.
    j.journal.resolve_upload(two.id, true).unwrap();
    j.ack(&two, "two");
    // No callback has published either rename or acknowledgement yet.
    assert!(j.catch_up(&mut p).unwrap());
    let second_id = p.local_object(&scope(), &second.node.id).unwrap().id;
    assert_eq!(owner(&p, "target"), Some(second_id));
    assert_eq!(owner(&p, "first"), Some(one.cleanup_object));
    assert_eq!(owner(&p, "second"), Some(two.cleanup_object));
    assert!(!p.publish_batch(&middle).unwrap());
    assert!(!p.publish_batch(&delayed).unwrap());
    assert_eq!(owner(&p, "target"), Some(second_id));
    for (file, expected) in [(&old, b"old"), (&first, b"one"), (&second, b"two")] {
        assert_eq!(j.bytes(&p, file), expected);
    }
    let listing = project_namespace(&p.objects, &scope(), "root", vec![]).unwrap();
    assert_eq!(listing.nodes.len(), 1);
    assert_eq!(listing.nodes[0].id, second.node.id);
}

#[test]
fn incomplete_or_corrupt_publication_changes_neither_aliases_nor_cursor() {
    let mut j = Fixture::new();
    let old = j.file("target", "document", b"old");
    let new = j.file("source", "temp", b"new");
    let mut p = Projection::new();
    j.catch_up(&mut p).unwrap();
    let base = p.frontier;
    let old_owner = owner(&p, "target");
    let source_owner = owner(&p, "source");
    let operation = j.replace(&new, &old);
    j.ack(&operation, "done");
    let mut incomplete = j.journal.namespace_publication(base).unwrap();
    incomplete
        .objects
        .retain(|s| s.object.id != old_owner.unwrap());
    assert_eq!(p.publish_batch(&incomplete), Err(WriteError::Failure));
    assert_eq!(p.frontier, base);
    assert_eq!(owner(&p, "target"), old_owner);
    assert_eq!(owner(&p, "source"), source_owner);
    let mut corrupt = j.journal.namespace_publication(base).unwrap();
    corrupt
        .objects
        .iter_mut()
        .find(|s| s.object.id == source_owner.unwrap())
        .unwrap()
        .working = None;
    assert_eq!(p.publish_batch(&corrupt), Err(WriteError::Failure));
    assert_eq!(p.frontier, base);
    assert_eq!(owner(&p, "target"), old_owner);
    let mut duplicate = j.journal.namespace_publication(base).unwrap();
    let copy = duplicate.objects[0].clone();
    duplicate.objects.push(copy);
    assert_eq!(p.publish_batch(&duplicate), Err(WriteError::Failure));
    assert_eq!(p.frontier, base);
    let mut gap = j.journal.namespace_publication(base).unwrap();
    gap.after = base + 1;
    assert_eq!(p.publish_batch(&gap), Err(WriteError::Stale));
    assert!(j.catch_up(&mut p).unwrap());
    assert_eq!(owner(&p, "target"), source_owner);
}

#[test]
fn failed_durable_ack_leaves_projection_unchanged_and_retry_publishes_once() {
    let mut j = Fixture::new();
    let old = j.file("target", "document", b"old");
    let new = j.file("source", "temp", b"new");
    let mut p = Projection::new();
    let replacement = j.replace(&new, &old);
    j.catch_up(&mut p).unwrap();
    let frontier = p.frontier;
    let id = j.journal.next_pending().unwrap();
    let upload = j.journal.claim_next(id, Ok(())).unwrap().unwrap();
    // A transaction that does not commit is dropped as a whole.
    let mut transaction = j.journal.copy();
    transaction
        .acknowledge(
            upload.id,
            upload.attempt.unwrap(),
            node("target", "document", "done"),
        )
        .unwrap();
    drop(transaction);
    assert_eq!(
        j.journal
            .acknowledge(upload.id, 7, node("target", "document", "done")),
        Err(JournalError::Stale)
    );
    assert!(!j.catch_up(&mut p).unwrap());
    assert_eq!(p.frontier, frontier);
    assert_eq!(owner(&p, "target"), Some(replacement.victim));
    j.journal
        .acknowledge(
            upload.id,
            upload.attempt.unwrap(),
            node("target", "document", "done"),
        )
        .unwrap();
    assert!(j.catch_up(&mut p).unwrap());
    assert_eq!(owner(&p, "target"), Some(replacement.source));
    assert!(!j.catch_up(&mut p).unwrap());
}

#[test]
fn journal_refusals_become_filesystem_answers() {
    assert_eq!(answer_for(JournalError::Quota), WriteError::NoSpace);
    assert_eq!(answer_for(JournalError::Missing), WriteError::NotFound);
    assert_eq!(answer_for(JournalError::Account), WriteError::Access);
    assert_eq!(answer_for(JournalError::Intent), WriteError::Invalid);
    assert_eq!(answer_for(JournalError::Stale), WriteError::Stale);
    for error in [
        JournalError::Storage,
        JournalError::Busy,
        JournalError::Corrupt,
        JournalError::Schema,
    ] {
        assert_eq!(answer_for(error), WriteError::Failure);
    }
}

#[test]
fn open_files_read_their_own_stream() {
    let mut j = Fixture::new();
    let file = j.file("one", "document", b"abc");
    let mut p = Projection::new();
    assert!(j.catch_up(&mut p).unwrap());
    let local = file.node.id.clone();
    assert!(matches!(
        p.read_source(&scope(), &local, &file.node, true),
        Ok(ReadSource::Working(id)) if id == file.id
    ));
    assert_eq!(p.stream_identity(&scope(), &local), Ok(local.clone()));
    assert!(!p.is_unlinked(&scope(), &local));
    let other = "elsewhere".to_string();
    assert_eq!(p.stream_identity(&scope(), &other), Ok(other.clone()));
    let remote = node("elsewhere", "name", "tag");
    assert!(matches!(
        p.read_source(&scope(), &other, &remote, false),
        Ok(ReadSource::Remote(found)) if found.id == "elsewhere" && found.name == "name"
    ));
    assert!(matches!(
        p.read_source(&scope(), &other, &remote, true),
        Err(WriteError::Stale)
    ));
    let object = j.journal.namespace_by_local(&scope(), &local).unwrap();
    j.journal
        .unlink_namespace_file(object.id, object.revision, false, true)
        .unwrap();
    j.catch_up(&mut p).unwrap();
    assert!(p.is_unlinked(&scope(), &local));
    assert_eq!(p.stream_identity(&scope(), &local), Err(WriteError::NotFound));
}
