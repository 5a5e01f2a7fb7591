//! Journals of earlier layouts: what each of them lacked is made from what it had.
use crate::journal::listing::{chosen, lemma_listed, listed, listing, select};
use crate::journal::namespace::COUNTER_LIMIT;
use crate::journal::observation::{attached, stream_owner};
use crate::journal::queue::{claim_all, claimed, stepped, upload_keys, upload_resources};
use crate::journal::receipts::{confirmed, upserted};
use crate::journal::records::{
    JournalError, JournalView, MutationRecord, MutationState, QueueRow, UploadJournal,
    UploadRecord, UploadState, WorkingFile,
};
use crate::journal::tables::{increasing, Table};
use crate::model::{Id, MutationReceipt, Node};
use crate::seqs::lemma_prefix_contains;
use vstd::prelude::*;

verus! {

/// The first layout with one queue for all operations.
pub const QUEUE_VERSION: u32 = 3;

/// The first layout that keeps the content successors of operations.
pub const SUCCESSOR_VERSION: u32 = 6;

/// The first layout with a namespace.
pub const NAMESPACE_VERSION: u32 = 7;

/// The first layout that counts the changes of its namespace.
pub const CHANGES_VERSION: u32 = 12;

/// All uploads, in the order of their places.
pub open spec fn uploads_in_order(journal: JournalView) -> Seq<UploadRecord> {
    let rows = listed(journal.uploads, |id: Id, record: UploadRecord| true);
    Seq::new(rows.len(), |i: int| journal.uploads[rows[i].1])
}

/// The uploads with a receipt, in the order of their places.
pub open spec fn uploaded_in_order(journal: JournalView) -> Seq<UploadRecord> {
    let rows = listed(
        journal.uploads,
        |id: Id, record: UploadRecord| record.state == UploadState::Uploaded,
    );
    Seq::new(rows.len(), |i: int| journal.uploads[rows[i].1])
}

/// The namespace changes with a receipt, in the order of their places.
pub open spec fn applied_in_order(journal: JournalView) -> Seq<MutationRecord> {
    let rows = listed(
        journal.mutations,
        |id: Id, record: MutationRecord| record.state == MutationState::Applied,
    );
    Seq::new(rows.len(), |i: int| journal.mutations[rows[i].1])
}

/// The identities are those of the table, in order.
pub open spec fn in_order<T>(table: Map<Id, T>, ids: Seq<Id>) -> bool {
    increasing(ids) && forall|id: Id| #[trigger] ids.contains(id) <==> table.contains_key(id)
}

/// The streams in the order of their identities.
pub open spec fn streams_in_order(journal: JournalView) -> Seq<WorkingFile> {
    let ids = choose|ids: Seq<Id>| in_order(journal.working, ids);
    Seq::new(ids.len(), |i: int| journal.working[ids[i]])
}

/// Some operation has this place.
pub open spec fn place_taken(queue: Map<Id, QueueRow>, sequence: u64) -> bool {
    exists|id: Id| #[trigger] queue.contains_key(id) && queue[id].sequence == sequence
}

/// An upload takes its place in the queue and claims what it changes.
pub open spec fn queued_again(journal: JournalView, record: UploadRecord) -> JournalView {
    let known = journal.queue.contains_key(record.id) || place_taken(
        journal.queue,
        record.sequence,
    );
    JournalView {
        queue: if known {
            journal.queue
        } else {
            journal.queue.insert(
                record.id,
                QueueRow {
                    sequence: record.sequence,
                    complete: record.state == UploadState::Uploaded,
                },
            )
        },
        last_sequence: if !known && record.sequence > journal.last_sequence {
            record.sequence
        } else {
            journal.last_sequence
        },
        resources: journal.resources.union(
            claimed(record.id, upload_keys(record.scope@, record.intent)),
        ),
        ..journal
    }
}

/// Uploads take their places in the queue, one after the other.
pub open spec fn all_queued(journal: JournalView, records: Seq<UploadRecord>) -> JournalView
    decreases records.len(),
{
    if records.len() == 0 {
        journal
    } else {
        all_queued(queued_again(journal, records[0]), records.drop_first())
    }
}

/// An upload is the content successor of its base, where neither has another.
pub open spec fn succeeded(journal: JournalView, record: UploadRecord) -> JournalView {
    match record.base {
        Some(base) => if journal.successors.contains_key(base.predecessor)
            || journal.successors.contains_value(record.id) {
            journal
        } else {
            JournalView {
                successors: journal.successors.insert(base.predecessor, record.id),
                ..journal
            }
        },
        None => journal,
    }
}

/// Uploads become the successors of their bases, one after the other.
pub open spec fn all_succeeded(journal: JournalView, records: Seq<UploadRecord>) -> JournalView
    decreases records.len(),
{
    if records.len() == 0 {
        journal
    } else {
        all_succeeded(succeeded(journal, records[0]), records.drop_first())
    }
}

/// Streams get their objects, one after the other.
pub open spec fn all_attached(journal: JournalView, files: Seq<WorkingFile>) -> Result<
    JournalView,
    JournalError,
>
    decreases files.len(),
{
    if files.len() == 0 {
        Ok(journal)
    } else {
        match attached(journal, files[0]) {
            Err(error) => Err(error),
            Ok((state, _)) => all_attached(state, files.drop_first()),
        }
    }
}

/// An operation acted on the object of a stream, unless it is known to act on another.
pub open spec fn bound_to(journal: JournalView, operation: Id, working: Id) -> JournalView {
    match stream_owner(journal.objects, working) {
        Some(object) if !journal.operations.contains_key(operation) => JournalView {
            operations: journal.operations.insert(operation, object.id),
            ..journal
        },
        _ => journal,
    }
}

/// The receipt of an operation on a stream reaches the stream's object.
pub open spec fn receipt_adopted(
    journal: JournalView,
    operation: Id,
    sequence: u64,
    working: Option<Id>,
    remote: Option<Node>,
) -> Result<JournalView, JournalError> {
    match (working, remote) {
        (Some(working), Some(remote)) => confirmed(
            bound_to(journal, operation, working),
            operation,
            sequence,
            remote,
        ),
        _ => Ok(journal),
    }
}

/// The receipts of uploads reach their objects, one after the other.
pub open spec fn all_uploaded(journal: JournalView, records: Seq<UploadRecord>) -> Result<
    JournalView,
    JournalError,
>
    decreases records.len(),
{
    if records.len() == 0 {
        Ok(journal)
    } else {
        let record = records[0];
        match receipt_adopted(
            journal,
            record.id,
            record.sequence,
            record.working_file,
            record.remote,
        ) {
            Err(error) => Err(error),
            Ok(state) => all_uploaded(state, records.drop_first()),
        }
    }
}

/// The receipts of namespace changes reach their objects, one after the other.
pub open spec fn all_applied(journal: JournalView, records: Seq<MutationRecord>) -> Result<
    JournalView,
    JournalError,
>
    decreases records.len(),
{
    if records.len() == 0 {
        Ok(journal)
    } else {
        let record = records[0];
        match receipt_adopted(
            journal,
            record.id,
            record.sequence,
            record.working_file,
            upserted(record.receipt),
        ) {
            Err(error) => Err(error),
            Ok(state) => all_applied(state, records.drop_first()),
        }
    }
}

/// A journal without a namespace gets one: every stream its object, and every object the
/// receipts of the operations on its stream. Receipts of generations before the last one
/// count too, so that a listing cannot show a created file twice.
pub open spec fn namespace_adopted(journal: JournalView) -> Result<JournalView, JournalError> {
    match all_attached(journal, streams_in_order(journal)) {
        Err(error) => Err(error),
        Ok(first) => match all_uploaded(first, uploaded_in_order(journal)) {
            Err(error) => Err(error),
            Ok(second) => all_applied(second, applied_in_order(journal)),
        },
    }
}

/// Every object changed just now.
pub open spec fn all_changed(journal: JournalView) -> Result<JournalView, JournalError> {
    if journal.clock >= COUNTER_LIMIT {
        Err(JournalError::Storage)
    } else {
        Ok(
            JournalView {
                clock: (journal.clock + 1) as u64,
                changes: Map::new(
                    |id: Id| journal.objects.contains_key(id),
                    |id: Id| (journal.clock + 1) as u64,
                ),
                ..journal
            },
        )
    }
}

/// A journal of an earlier layout in the current one.
pub open spec fn upgraded(journal: JournalView, version: u32) -> Result<JournalView, JournalError> {
    let queued = if version < QUEUE_VERSION {
        all_queued(journal, uploads_in_order(journal))
    } else {
        journal
    };
    let linked = if version < SUCCESSOR_VERSION {
        all_succeeded(queued, uploads_in_order(queued))
    } else {
        queued
    };
    let named = if version < NAMESPACE_VERSION {
        namespace_adopted(linked)
    } else {
        Ok(linked)
    };
    match named {
        Err(error) => Err(error),
        Ok(state) => if version < CHANGES_VERSION {
            all_changed(state)
        } else {
            Ok(state)
        },
    }
}

/// There is one order of identities only.
proof fn lemma_one_order<T>(table: Map<Id, T>, a: Seq<Id>, b: Seq<Id>)
    requires
        in_order(table, a),
        in_order(table, b),
    ensures
        a == b,
    decreases a.len(),
{
    if a.len() == 0 {
        if b.len() > 0 {
            assert(b.contains(b[0]));
            assert(a.contains(b[0]));
        }
        assert(a =~= b);
    } else if b.len() == 0 {
        assert(a.contains(a[0]));
        assert(b.contains(a[0]));
    } else {
        let last = a.last();
        let end = b.last();
        assert(a.contains(last));
        assert(b.contains(last));
        assert(b.contains(end));
        assert(a.contains(end));
        let i = choose|i: int| 0 <= i < a.len() && a[i] == end;
        let j = choose|j: int| 0 <= j < b.len() && b[j] == last;
        assert(last == end) by {
            if i < a.len() - 1 {
                assert(a[i] < a[a.len() - 1]);
                assert(j < b.len() - 1);
                assert(b[j] < b[b.len() - 1]);
            }
        }
        let rest = table.remove(last);
        lemma_without_last(table, a);
        lemma_without_last(table, b);
        lemma_one_order(rest, a.drop_last(), b.drop_last());
        assert(a =~= a.drop_last().push(last));
        assert(b =~= b.drop_last().push(last));
    }
}

proof fn lemma_without_last<T>(table: Map<Id, T>, ids: Seq<Id>)
    requires
        in_order(table, ids),
        ids.len() > 0,
    ensures
        in_order(table.remove(ids.last()), ids.drop_last()),
{
    let rest = ids.drop_last();
    assert forall|id: Id| #[trigger] rest.contains(id) <==> table.remove(ids.last()).contains_key(
        id,
    ) by {
        if rest.contains(id) {
            let i = choose|i: int| 0 <= i < rest.len() && rest[i] == id;
            assert(ids[i] == id && ids.contains(id));
            assert(ids[i] < ids[ids.len() - 1]);
        }
        if table.contains_key(id) && id != ids.last() {
            assert(ids.contains(id));
            let i = choose|i: int| 0 <= i < ids.len() && ids[i] == id;
            assert(rest[i] == id);
        }
    }
}

impl UploadJournal {
    /// Whether some operation has this place.
    fn is_place_taken(&self, sequence: u64) -> (taken: bool)
        ensures
            taken == place_taken(self@.queue, sequence),
    {
        let ids = self.queue.ids();
        let mut i: usize = 0;
        while i < ids.len()
            invariant
                i <= ids@.len(),
                forall|id: Id| ids@.contains(id) <==> self@.queue.contains_key(id),
                forall|j: int| 0 <= j < ids@.len() ==> self@.queue.contains_key(#[trigger] ids@[j]),
                forall|j: int| 0 <= j < i ==> self@.queue[#[trigger] ids@[j]].sequence != sequence,
            decreases ids@.len() - i,
        {
            if let Some(row) = self.queue.get(ids[i]) {
                if row.sequence == sequence {
                    return true;
                }
            }
            i = i + 1;
        }
        proof {
            assert forall|id: Id| #[trigger] self@.queue.contains_key(id) implies self@.queue[id].sequence
                != sequence by {
                assert(ids@.contains(id));
                let j = choose|j: int| 0 <= j < ids@.len() && ids@[j] == id;
                assert(self@.queue[ids@[j]].sequence != sequence);
            }
        }
        false
    }

    /// All uploads, in the order of their places.
    fn ordered_uploads(&self, uploaded: bool) -> (records: Vec<UploadRecord>)
        ensures
            records@ == (if uploaded {
                uploaded_in_order(self@)
            } else {
                uploads_in_order(self@)
            }),
    {
        let ghost wanted = if uploaded {
            |id: Id, record: UploadRecord| record.state == UploadState::Uploaded
        } else {
            |id: Id, record: UploadRecord| true
        };
        let keep = |id: Id, record: &UploadRecord| -> (kept: bool)
            ensures
                kept == (!uploaded || record.state == UploadState::Uploaded),
            { !uploaded || record.state == UploadState::Uploaded };
        let rows = select(&self.uploads, keep, Ghost(wanted));
        proof {
            lemma_listed(self@.uploads, wanted, rows@);
        }
        let mut records: Vec<UploadRecord> = Vec::new();
        let mut i: usize = 0;
        while i < rows.len()
            invariant
                i <= rows@.len(),
                records@.len() == i,
                listing(self@.uploads, wanted, rows@),
                forall|k: int|
                    0 <= k < i ==> #[trigger] records@[k] == self@.uploads[rows@[k].1],
            decreases rows@.len() - i,
        {
            proof {
                assert(rows@.contains(rows@[i as int]));
                assert(chosen(self@.uploads, wanted, rows@[i as int]));
            }
            if let Some(record) = self.uploads.get(rows[i].1) {
                records.push(record.clone());
            }
            i = i + 1;
        }
        proof {
            assert(records@ =~= Seq::new(rows@.len(), |k: int| self@.uploads[rows@[k].1]));
        }
        records
    }

    /// The namespace changes with a receipt, in the order of their places.
    fn ordered_mutations(&self) -> (records: Vec<MutationRecord>)
        ensures
            records@ == applied_in_order(self@),
    {
        let ghost wanted = |id: Id, record: MutationRecord| record.state == MutationState::Applied;
        let keep = |id: Id, record: &MutationRecord| -> (kept: bool)
            ensures
                kept == (record.state == MutationState::Applied),
            { record.state == MutationState::Applied };
        let rows = select(&self.mutations, keep, Ghost(wanted));
        proof {
            lemma_listed(self@.mutations, wanted, rows@);
        }
        let mut records: Vec<MutationRecord> = Vec::new();
        let mut i: usize = 0;
        while i < rows.len()
            invariant
                i <= rows@.len(),
                records@.len() == i,
                listing(self@.mutations, wanted, rows@),
                forall|k: int|
                    0 <= k < i ==> #[trigger] records@[k] == self@.mutations[rows@[k].1],
            decreases rows@.len() - i,
        {
            proof {
                assert(rows@.contains(rows@[i as int]));
                assert(chosen(self@.mutations, wanted, rows@[i as int]));
            }
            if let Some(record) = self.mutations.get(rows[i].1) {
                records.push(record.clone());
            }
            i = i + 1;
        }
        proof {
            assert(records@ =~= Seq::new(rows@.len(), |k: int| self@.mutations[rows@[k].1]));
        }
        records
    }

    /// The streams in the order of their identities.
    fn ordered_streams(&self) -> (files: Vec<WorkingFile>)
        ensures
            files@ == streams_in_order(self@),
    {
        let ids = self.working.ids();
        proof {
            assert(in_order(self@.working, ids@));
            lemma_one_order(
                self@.working,
                ids@,
                choose|found: Seq<Id>| in_order(self@.working, found),
            );
        }
        let mut files: Vec<WorkingFile> = Vec::new();
        let mut i: usize = 0;
        while i < ids.len()
            invariant
                i <= ids@.len(),
                files@.len() == i,
                forall|k: int|
                    0 <= k < ids@.len() ==> self@.working.contains_key(#[trigger] ids@[k]),
                forall|k: int| 0 <= k < i ==> #[trigger] files@[k] == self@.working[ids@[k]],
            decreases ids@.len() - i,
        {
            if let Some(file) = self.working.get(ids[i]) {
                files.push(file.clone());
            }
            i = i + 1;
        }
        proof {
            assert(files@ =~= Seq::new(ids@.len(), |k: int| self@.working[ids@[k]]));
        }
        files
    }

    /// Gives the uploads of a journal without a queue their places in one.
    pub fn adopt_queue(&mut self)
        ensures
            final(self)@ == all_queued(old(self)@, uploads_in_order(old(self)@)),
    {
        let records = self.ordered_uploads(false);
        let ghost start = self@;
        let mut i: usize = 0;
        proof {
            assert(records@.subrange(0, records@.len() as int) =~= records@);
        }
        while i < records.len()
            invariant
                i <= records@.len(),
                all_queued(start, records@) == all_queued(
                    self@,
                    records@.subrange(i as int, records@.len() as int),
                ),
            decreases records@.len() - i,
        {
            let record = &records[i];
            let ghost before = self@;
            proof {
                let rest = records@.subrange(i as int, records@.len() as int);
                assert(rest[0] == *record);
                assert(rest.drop_first() =~= records@.subrange(i + 1, records@.len() as int));
            }
            if !self.queue.has(record.id) && !self.is_place_taken(record.sequence) {
                self.queue.put(
                    record.id,
                    QueueRow {
                        sequence: record.sequence,
                        complete: record.state == UploadState::Uploaded,
                    },
                );
                if record.sequence > self.last_sequence {
                    self.last_sequence = record.sequence;
                }
            }
            let keys = upload_resources(&record.scope, &record.intent);
            claim_all(&mut self.resources, record.id, keys);
            proof {
                assert(self@ =~= queued_again(before, *record));
            }
            i = i + 1;
        }
    }

    /// Gives the uploads of a journal without successors their places behind their bases.
    pub fn adopt_successors(&mut self)
        ensures
            final(self)@ == all_succeeded(old(self)@, uploads_in_order(old(self)@)),
    {
        let records = self.ordered_uploads(false);
        let ghost start = self@;
        let mut i: usize = 0;
        proof {
            assert(records@.subrange(0, records@.len() as int) =~= records@);
        }
        while i < records.len()
            invariant
                i <= records@.len(),
                all_succeeded(start, records@) == all_succeeded(
                    self@,
                    records@.subrange(i as int, records@.len() as int),
                ),
            decreases records@.len() - i,
        {
            let record = &records[i];
            let ghost before = self@;
            proof {
                let rest = records@.subrange(i as int, records@.len() as int);
                assert(rest[0] == *record);
                assert(rest.drop_first() =~= records@.subrange(i + 1, records@.len() as int));
            }
            if let Some(base) = record.base {
                if !self.successors.has(base.predecessor) && !self.succeeds_some(record.id) {
                    self.successors.put(base.predecessor, record.id);
                }
            }
            proof {
                assert(self@ =~= succeeded(before, *record));
            }
            i = i + 1;
        }
    }

    /// Lets the receipt of an operation on a stream reach the stream's object.
    fn adopt_receipt(
        &mut self,
        operation: Id,
        sequence: u64,
        working: Option<Id>,
        remote: Option<&Node>,
    ) -> (result: Result<(), JournalError>)
        ensures
            stepped(
                receipt_adopted(
                    old(self)@,
                    operation,
                    sequence,
                    working,
                    match remote {
                        Some(remote) => Some(*remote),
                        None => None,
                    },
                ),
                result,
                old(self)@,
                final(self)@,
            ),
    {
        let (working, remote) = match (working, remote) {
            (Some(working), Some(remote)) => (working, remote),
            _ => {
                return Ok(());
            },
        };
        let ghost start = self@;
        let mut tx = self.copy();
        if let Some(object) = tx.namespace_by_working(working) {
            if !tx.operations.has(operation) {
                tx.operations.put(operation, object.id);
            }
        }
        proof {
            assert(tx@ =~= bound_to(start, operation, working));
        }
        tx.confirm(operation, sequence, remote)?;
        *self = tx;
        Ok(())
    }

    /// Gives a journal without a namespace one.
    pub fn adopt_namespace(&mut self) -> (result: Result<(), JournalError>)
        ensures
            stepped(namespace_adopted(old(self)@), result, old(self)@, final(self)@),
    {
        let files = self.ordered_streams();
        let uploads = self.ordered_uploads(true);
        let mutations = self.ordered_mutations();
        let ghost start = self@;
        let mut tx = self.copy();
        let mut i: usize = 0;
        proof {
            assert(files@.subrange(0, files@.len() as int) =~= files@);
            assert(uploads@.subrange(0, uploads@.len() as int) =~= uploads@);
            assert(mutations@.subrange(0, mutations@.len() as int) =~= mutations@);
        }
        while i < files.len()
            invariant
                i <= files@.len(),
                start == old(self)@,
                self@ == start,
                files@ == streams_in_order(start),
                all_attached(start, files@) == all_attached(
                    tx@,
                    files@.subrange(i as int, files@.len() as int),
                ),
            decreases files@.len() - i,
        {
            proof {
                let rest = files@.subrange(i as int, files@.len() as int);
                assert(rest[0] == files@[i as int]);
                assert(rest.drop_first() =~= files@.subrange(i + 1, files@.len() as int));
            }
            tx.attach_working(files[i].clone())?;
            i = i + 1;
        }
        let ghost first = tx@;
        let mut j: usize = 0;
        while j < uploads.len()
            invariant
                j <= uploads@.len(),
                start == old(self)@,
                self@ == start,
                uploads@ == uploaded_in_order(start),
                all_attached(start, streams_in_order(start)) == Ok::<JournalView, JournalError>(
                    first,
                ),
                all_uploaded(first, uploads@) == all_uploaded(
                    tx@,
                    uploads@.subrange(j as int, uploads@.len() as int),
                ),
            decreases uploads@.len() - j,
        {
            proof {
                let rest = uploads@.subrange(j as int, uploads@.len() as int);
                assert(rest[0] == uploads@[j as int]);
                assert(rest.drop_first() =~= uploads@.subrange(j + 1, uploads@.len() as int));
            }
            let record = &uploads[j];
            tx.adopt_receipt(
                record.id,
                record.sequence,
                record.working_file,
                record.remote.as_ref(),
            )?;
            j = j + 1;
        }
        let ghost second = tx@;
        let mut k: usize = 0;
        while k < mutations.len()
            invariant
                k <= mutations@.len(),
                start == old(self)@,
                self@ == start,
                mutations@ == applied_in_order(start),
                all_attached(start, streams_in_order(start)) == Ok::<JournalView, JournalError>(
                    first,
                ),
                all_uploaded(first, uploaded_in_order(start)) == Ok::<JournalView, JournalError>(
                    second,
                ),
                all_applied(second, mutations@) == all_applied(
                    tx@,
                    mutations@.subrange(k as int, mutations@.len() as int),
                ),
            decreases mutations@.len() - k,
        {
            proof {
                let rest = mutations@.subrange(k as int, mutations@.len() as int);
                assert(rest[0] == mutations@[k as int]);
                assert(rest.drop_first() =~= mutations@.subrange(k + 1, mutations@.len() as int));
            }
            let record = &mutations[k];
            let remote = match &record.receipt {
                Some(MutationReceipt::Upsert(node)) => Some(node),
                _ => None,
            };
            tx.adopt_receipt(record.id, record.sequence, record.working_file, remote)?;
            k = k + 1;
        }
        *self = tx;
        Ok(())
    }

    /// Counts every object of a journal that did not count changes as changed just now.
    pub fn adopt_changes(&mut self) -> (result: Result<(), JournalError>)
        ensures
            stepped(all_changed(old(self)@), result, old(self)@, final(self)@),
    {
        if self.clock >= COUNTER_LIMIT {
            return Err(JournalError::Storage);
        }
        let ghost start = self@;
        let now: u64 = self.clock + 1;
        let ids = self.objects.ids();
        let mut changes: Table<u64> = Table::new();
        let mut i: usize = 0;
        while i < ids.len()
            invariant
                i <= ids@.len(),
                forall|id: Id| #[trigger]
                    changes@.contains_key(id) <==> ids@.subrange(0, i as int).contains(id),
                forall|id: Id| #[trigger] changes@.contains_key(id) ==> changes@[id] == now,
            decreases ids@.len() - i,
        {
            proof {
                lemma_prefix_contains(ids@, i as int);
            }
            changes.put(ids[i], now);
            i = i + 1;
        }
        proof {
            assert(ids@.subrange(0, i as int) =~= ids@);
            assert(changes@ =~= Map::new(
                |id: Id| start.objects.contains_key(id),
                |id: Id| now,
            ));
        }
        self.clock = now;
        self.changes = changes;
        Ok(())
    }

    /// Brings a journal of an earlier layout to the current one.
    pub fn upgrade(&mut self, version: u32) -> (result: Result<(), JournalError>)
        ensures
            stepped(upgraded(old(self)@, version), result, old(self)@, final(self)@),
    {
        let mut tx = self.copy();
        if version < QUEUE_VERSION {
            tx.adopt_queue();
        }
        if version < SUCCESSOR_VERSION {
            tx.adopt_successors();
        }
        if version < NAMESPACE_VERSION {
            tx.adopt_namespace()?;
        }
        if version < CHANGES_VERSION {
            tx.adopt_changes()?;
        }
        *self = tx;
        Ok(())
    }
}

/// What is queued and what is edited locally is the same in both journals.
pub open spec fn same_work(a: JournalView, b: JournalView) -> bool {
    &&& a.uploads == b.uploads
    &&& a.mutations == b.mutations
    &&& a.working == b.working
}

/// An upgrade keeps every queued operation, every receipt and every stream.
pub proof fn upgrades_keep_all_work(journal: JournalView, version: u32)
    requires
        upgraded(journal, version) is Ok,
    ensures
        same_work(upgraded(journal, version)->Ok_0, journal),
{
    lemma_queued_work(journal, uploads_in_order(journal));
    let queued = if version < QUEUE_VERSION {
        all_queued(journal, uploads_in_order(journal))
    } else {
        journal
    };
    lemma_succeeded_work(queued, uploads_in_order(queued));
    let linked = if version < SUCCESSOR_VERSION {
        all_succeeded(queued, uploads_in_order(queued))
    } else {
        queued
    };
    if version < NAMESPACE_VERSION {
        lemma_attached_work(linked, streams_in_order(linked));
        let first = all_attached(linked, streams_in_order(linked))->Ok_0;
        lemma_uploaded_work(first, uploaded_in_order(linked));
        let second = all_uploaded(first, uploaded_in_order(linked))->Ok_0;
        lemma_applied_work(second, applied_in_order(linked));
    }
}

/// A journal of the current layout is left as it is.
pub proof fn current_journals_stay_as_they_are(journal: JournalView, version: u32)
    requires
        version >= CHANGES_VERSION,
    ensures
        upgraded(journal, version) == Ok::<JournalView, JournalError>(journal),
{
}

/// An upload of a journal without a queue is in the queue afterwards, unless its place
/// there was already taken.
pub proof fn upgrades_queue_every_upload(journal: JournalView, records: Seq<UploadRecord>, at: int)
    requires
        0 <= at < records.len(),
    ensures
        ({
            let queue = all_queued(journal, records).queue;
            queue.contains_key(records[at].id) || place_taken(queue, records[at].sequence)
        }),
    decreases records.len(),
{
    let next = queued_again(journal, records[0]);
    if at == 0 {
        assert(next.queue.contains_key(records[0].id) || place_taken(
            next.queue,
            records[0].sequence,
        ));
        lemma_queue_grows(next, records.drop_first());
        let queue = all_queued(journal, records).queue;
        if place_taken(next.queue, records[0].sequence) {
            let id = choose|id: Id| #[trigger]
                next.queue.contains_key(id) && next.queue[id].sequence == records[0].sequence;
            assert(queue.contains_key(id) && queue[id] == next.queue[id]);
        }
    } else {
        upgrades_queue_every_upload(next, records.drop_first(), at - 1);
        assert(records.drop_first()[at - 1] == records[at]);
    }
}

proof fn lemma_queue_grows(journal: JournalView, records: Seq<UploadRecord>)
    ensures
        forall|id: Id| #[trigger]
            journal.queue.contains_key(id) ==> all_queued(journal, records).queue.contains_key(id)
                && all_queued(journal, records).queue[id] == journal.queue[id],
    decreases records.len(),
{
    if records.len() > 0 {
        let next = queued_again(journal, records[0]);
        lemma_queue_grows(next, records.drop_first());
        assert forall|id: Id| #[trigger] journal.queue.contains_key(id) implies all_queued(
            journal,
            records,
        ).queue.contains_key(id) && all_queued(journal, records).queue[id] == journal.queue[id] by {
            assert(next.queue.contains_key(id) && next.queue[id] == journal.queue[id]);
        }
    }
}

proof fn lemma_queued_work(journal: JournalView, records: Seq<UploadRecord>)
    ensures
        same_work(all_queued(journal, records), journal),
    decreases records.len(),
{
    if records.len() > 0 {
        lemma_queued_work(queued_again(journal, records[0]), records.drop_first());
    }
}

proof fn lemma_succeeded_work(journal: JournalView, records: Seq<UploadRecord>)
    ensures
        same_work(all_succeeded(journal, records), journal),
    decreases records.len(),
{
    if records.len() > 0 {
        lemma_succeeded_work(succeeded(journal, records[0]), records.drop_first());
    }
}

proof fn lemma_attached_work(journal: JournalView, files: Seq<WorkingFile>)
    requires
        all_attached(journal, files) is Ok,
    ensures
        same_work(all_attached(journal, files)->Ok_0, journal),
    decreases files.len(),
{
    if files.len() > 0 {
        let state = attached(journal, files[0])->Ok_0.0;
        lemma_attached_work(state, files.drop_first());
    }
}

proof fn lemma_uploaded_work(journal: JournalView, records: Seq<UploadRecord>)
    requires
        all_uploaded(journal, records) is Ok,
    ensures
        same_work(all_uploaded(journal, records)->Ok_0, journal),
    decreases records.len(),
{
    if records.len() > 0 {
        let record = records[0];
        let state = receipt_adopted(
            journal,
            record.id,
            record.sequence,
            record.working_file,
            record.remote,
        )->Ok_0;
        lemma_uploaded_work(state, records.drop_first());
    }
}

proof fn lemma_applied_work(journal: JournalView, records: Seq<MutationRecord>)
    requires
        all_applied(journal, records) is Ok,
    ensures
        same_work(all_applied(journal, records)->Ok_0, journal),
    decreases records.len(),
{
    if records.len() > 0 {
        let record = records[0];
        let state = receipt_adopted(
            journal,
            record.id,
            record.sequence,
            record.working_file,
            upserted(record.receipt),
        )->Ok_0;
        lemma_applied_work(state, records.drop_first());
    }
}

/// An upload of an earlier layout takes its own place in the queue, complete exactly where it
/// was uploaded, and claims what it changes. What was queued before keeps its place.
pub proof fn uploads_keep_their_place(journal: JournalView, record: UploadRecord, other: Id)
    ensures
        ({
            let after = queued_again(journal, record);
            let free = !journal.queue.contains_key(record.id) && forall|id: Id| #[trigger]
                journal.queue.contains_key(id) ==> journal.queue[id].sequence != record.sequence;
            &&& free ==> {
                &&& after.queue.contains_key(record.id)
                &&& after.queue[record.id].sequence == record.sequence
                &&& after.queue[record.id].complete <==> record.state == UploadState::Uploaded
                &&& after.last_sequence >= record.sequence
            }
            &&& after.last_sequence >= journal.last_sequence
            &&& !free ==> after.queue == journal.queue && after.last_sequence
                == journal.last_sequence
            &&& other != record.id ==> after.queue.contains_key(other)
                == journal.queue.contains_key(other) && (after.queue.contains_key(other)
                ==> after.queue[other] == journal.queue[other])
            &&& claimed(record.id, upload_keys(record.scope@, record.intent)).subset_of(
                after.resources,
            )
            &&& journal.resources.subset_of(after.resources)
            &&& after.uploads == journal.uploads && after.objects == journal.objects
        }),
{
}

/// An upload that was based on another operation succeeds it, unless that one has a successor
/// already or the upload succeeds another.
pub proof fn based_uploads_succeed_their_base(journal: JournalView, record: UploadRecord, other: Id)
    ensures
        ({
            let after = succeeded(journal, record);
            &&& record.base is None ==> after == journal
            &&& record.base matches Some(base) ==> {
                let free = !journal.successors.contains_key(base.predecessor)
                    && !journal.successors.contains_value(record.id);
                &&& free ==> after.successors.contains_key(base.predecessor)
                    && after.successors[base.predecessor] == record.id
                &&& !free ==> after == journal
                &&& other != base.predecessor ==> after.successors.contains_key(other)
                    == journal.successors.contains_key(other) && (after.successors.contains_key(
                    other,
                ) ==> after.successors[other] == journal.successors[other])
            }
        }),
{
}

/// A journal that did not count changes counts every object of its namespace as changed at one
/// new tick of its clock, and nothing else.
pub proof fn adopted_objects_changed_just_now(journal: JournalView, id: Id)
    ensures
        all_changed(journal) is Err <==> journal.clock >= 0x7fff_ffff_ffff_ffff,
        all_changed(journal) matches Ok(after) ==> {
            &&& after.clock == journal.clock + 1
            &&& after.changes.contains_key(id) <==> journal.objects.contains_key(id)
            &&& after.changes.contains_key(id) ==> after.changes[id] == after.clock
            &&& after.objects == journal.objects && after.queue == journal.queue
        },
{
}

/// What an earlier layout lacked is made, and what it had is left alone: a queue before the
/// third, successors before the sixth, a namespace before the seventh and counted changes
/// before the twelfth.
pub proof fn layouts_get_what_they_lacked(journal: JournalView, version: u32)
    ensures
        version >= 12 ==> upgraded(journal, version) == Ok::<JournalView, JournalError>(journal),
        7 <= version < 12 ==> upgraded(journal, version) == all_changed(journal),
        version == 6 ==> (namespace_adopted(journal) matches Ok(named) ==> upgraded(
            journal,
            version,
        ) == all_changed(named)),
        3 <= version < 6 ==> ({
            let linked = all_succeeded(journal, uploads_in_order(journal));
            namespace_adopted(linked) matches Ok(named) ==> upgraded(journal, version)
                == all_changed(named)
        }),
        version < 3 ==> ({
            let queued = all_queued(journal, uploads_in_order(journal));
            let linked = all_succeeded(queued, uploads_in_order(queued));
            namespace_adopted(linked) matches Ok(named) ==> upgraded(journal, version)
                == all_changed(named)
        }),
{
}

/// A receipt of an earlier operation reaches the object of its stream, and no object where the
/// operation had no stream or no receipt. An operation that is known to act on an object keeps
/// it.
pub proof fn receipts_reach_the_stream(
    journal: JournalView,
    operation: Id,
    sequence: u64,
    working: Id,
    remote: Node,
)
    ensures
        receipt_adopted(journal, operation, sequence, None, Some(remote)) == Ok::<
            JournalView,
            JournalError,
        >(journal),
        receipt_adopted(journal, operation, sequence, Some(working), None) == Ok::<
            JournalView,
            JournalError,
        >(journal),
        receipt_adopted(journal, operation, sequence, Some(working), Some(remote)) == confirmed(
            bound_to(journal, operation, working),
            operation,
            sequence,
            remote,
        ),
        journal.operations.contains_key(operation) ==> bound_to(journal, operation, working)
            == journal,
        stream_owner(journal.objects, working) matches Some(object)
            ==> !journal.operations.contains_key(operation) ==> bound_to(
            journal,
            operation,
            working,
        ).operations == journal.operations.insert(operation, object.id),
        stream_owner(journal.objects, working) is None ==> bound_to(journal, operation, working)
            == journal,
{
}

} // verus!
