//! Opening a journal: what is refused, and what an interrupted process left behind.
use crate::journal::records::{
    JournalError, JournalView, MutationRecord, MutationState, ReplacementRecord, ScopeTable,
    UploadJournal, UploadRecord, UploadState,
};
use crate::journal::tables::{Relation, ResourceTable, Table};
use crate::journal::uploads::{attempts_recovered, recovered_mutation, recovered_upload};
use crate::model::Id;
use crate::text::same_text;
use vstd::prelude::*;

verus! {

/// The newest layout of the store that this build reads.
pub const SCHEMA_VERSION: u32 = 14;

/// Why a stored journal is not opened. `stored` is the account that it belongs to.
pub fn check_store(account: &str, quota: u64, version: u32, stored: &str) -> (result: Result<
    (),
    JournalError,
>)
    ensures
        result == (if account@.len() == 0 || quota == 0 {
            Err::<(), JournalError>(JournalError::Intent)
        } else if version > SCHEMA_VERSION {
            Err(JournalError::Schema)
        } else if stored@ != account@ {
            Err(JournalError::Account)
        } else {
            Ok(())
        }),
{
    if account.is_empty() || quota == 0 {
        return Err(JournalError::Intent);
    }
    if version > SCHEMA_VERSION {
        return Err(JournalError::Schema);
    }
    if !same_text(stored, account) {
        return Err(JournalError::Account);
    }
    Ok(())
}

/// A journal with nothing in it.
pub open spec fn empty_journal(account: Seq<char>, quota: u64) -> JournalView {
    JournalView {
        account,
        quota,
        last_sequence: 0,
        queue: Map::empty(),
        resources: Set::empty(),
        successors: Map::empty(),
        prerequisites: Set::empty(),
        destinations: Map::empty(),
        uploads: Map::empty(),
        collected: Map::empty(),
        mutations: Map::empty(),
        scopes: Map::empty(),
        objects: Map::empty(),
        operations: Map::empty(),
        working: Map::empty(),
        replacements: Map::empty(),
        preparations: Map::empty(),
        retired: Map::empty(),
        clock: 0,
        changes: Map::empty(),
    }
}

/// The source of this replacement is neither fetched nor open for reading: readers of
/// the new process may still ask for remote bytes, so they need a gate of their own.
pub open spec fn needs_gate(journal: JournalView, id: Id) -> bool {
    &&& journal.uploads.contains_key(id)
    &&& journal.uploads[id].sha256@.len() == 0
    &&& journal.preparations.contains_key(id)
    &&& journal.objects.contains_key(journal.preparations[id].source)
    &&& journal.objects[journal.preparations[id].source].working_file is None
}

/// The replacement after a restart.
pub open spec fn gated(journal: JournalView, id: Id) -> ReplacementRecord {
    if needs_gate(journal, id) {
        ReplacementRecord { local_ready: false, ..journal.replacements[id] }
    } else {
        journal.replacements[id]
    }
}

/// The journal with the reader gates of a new process.
pub open spec fn gates_closed(journal: JournalView) -> JournalView {
    JournalView {
        replacements: Map::new(
            |id: Id| journal.replacements.contains_key(id),
            |id: Id| gated(journal, id),
        ),
        ..journal
    }
}

impl UploadJournal {
    /// A journal with nothing in it.
    pub fn new(account: String, quota: u64) -> (journal: Self)
        ensures
            journal@ == empty_journal(account@, quota),
    {
        UploadJournal {
            account,
            quota,
            last_sequence: 0,
            queue: Table::new(),
            resources: ResourceTable::new(),
            successors: Table::new(),
            prerequisites: Relation::new(),
            destinations: Table::new(),
            uploads: Table::new(),
            collected: Table::new(),
            mutations: Table::new(),
            scopes: ScopeTable::new(),
            objects: Table::new(),
            operations: Table::new(),
            working: Table::new(),
            replacements: Table::new(),
            preparations: Table::new(),
            retired: Table::new(),
            clock: 0,
            changes: Table::new(),
        }
    }

    /// Turns every attempt of an earlier process into one that has to be verified. A
    /// transfer never counts as failed just because its process died.
    pub fn recover_attempts(&mut self)
        ensures
            final(self)@ == attempts_recovered(old(self)@),
    {
        let ghost start = self@;
        let ghost up = |record: UploadRecord| recovered_upload(record);
        let ghost mu = |record: MutationRecord| recovered_mutation(record);
        let ids = self.uploads.ids();
        let mut i: usize = 0;
        while i < ids.len()
            invariant
                i <= ids@.len(),
                crate::journal::tables::increasing(ids@),
                forall|id: Id| ids@.contains(id) <==> start.uploads.contains_key(id),
                self@ == (JournalView { uploads: self@.uploads, ..start }),
                self@.uploads.dom() == start.uploads.dom(),
                forall|id: Id| #[trigger]
                    start.uploads.contains_key(id) ==> self@.uploads[id] == (if ids@.subrange(
                        0,
                        i as int,
                    ).contains(id) {
                        recovered_upload(start.uploads[id])
                    } else {
                        start.uploads[id]
                    }),
            decreases ids@.len() - i,
        {
            let id = ids[i];
            proof {
                crate::seqs::lemma_prefix_contains(ids@, i as int);
                assert(ids@.contains(ids@[i as int]));
                assert(!ids@.subrange(0, i as int).contains(id)) by {
                    if ids@.subrange(0, i as int).contains(id) {
                        let j = choose|j: int| 0 <= j < i && ids@.subrange(0, i as int)[j] == id;
                        assert(ids@[j] == id);
                    }
                }
                assert(start.uploads.contains_key(id));
                assert(self@.uploads.dom().contains(id));
            }
            if let Some(found) = self.uploads.get(id) {
                let mut record = found.clone();
                if record.state == UploadState::Uploading || record.state
                    == UploadState::Verifying {
                    record.state = UploadState::VerifyRequired;
                    record.attempt = None;
                } else if record.state == UploadState::Preparing {
                    record.attempt = None;
                }
                self.uploads.put(id, record);
            }
            proof {
                assert(self@.uploads.dom() =~= start.uploads.dom());
            }
            i = i + 1;
        }
        proof {
            assert(ids@.subrange(0, i as int) =~= ids@);
            assert(self@.uploads =~= start.uploads.map_values(up));
        }
        let ghost middle = self@;
        let others = self.mutations.ids();
        let mut k: usize = 0;
        while k < others.len()
            invariant
                k <= others@.len(),
                crate::journal::tables::increasing(others@),
                forall|id: Id| others@.contains(id) <==> middle.mutations.contains_key(id),
                self@ == (JournalView { mutations: self@.mutations, ..middle }),
                self@.mutations.dom() == middle.mutations.dom(),
                forall|id: Id| #[trigger]
                    middle.mutations.contains_key(id) ==> self@.mutations[id] == (
                    if others@.subrange(0, k as int).contains(id) {
                        recovered_mutation(middle.mutations[id])
                    } else {
                        middle.mutations[id]
                    }),
            decreases others@.len() - k,
        {
            let id = others[k];
            proof {
                crate::seqs::lemma_prefix_contains(others@, k as int);
                assert(others@.contains(others@[k as int]));
                assert(!others@.subrange(0, k as int).contains(id)) by {
                    if others@.subrange(0, k as int).contains(id) {
                        let j = choose|j: int|
                            0 <= j < k && others@.subrange(0, k as int)[j] == id;
                        assert(others@[j] == id);
                    }
                }
                assert(middle.mutations.contains_key(id));
                assert(self@.mutations.dom().contains(id));
            }
            if let Some(found) = self.mutations.get(id) {
                let mut record = found.clone();
                if record.state == MutationState::Applying || record.state
                    == MutationState::Verifying {
                    record.state = MutationState::VerifyRequired;
                    record.attempt = None;
                }
                self.mutations.put(id, record);
            }
            proof {
                assert(self@.mutations.dom() =~= middle.mutations.dom());
            }
            k = k + 1;
        }
        proof {
            assert(others@.subrange(0, k as int) =~= others@);
            assert(self@.mutations =~= start.mutations.map_values(mu));
        }
    }

    /// Whether a replacement needs a reader gate of the new process.
    pub(crate) fn wants_gate(&self, id: Id) -> (wants: bool)
        ensures
            wants == needs_gate(self@, id),
    {
        match (self.uploads.get(id), self.preparations.get(id)) {
            (Some(record), Some(preparation)) => {
                record.sha256.as_str().is_empty() && match self.objects.get(preparation.source) {
                    Some(object) => object.working_file.is_none(),
                    None => false,
                }
            },
            _ => false,
        }
    }

    /// Closes the reader gates of unfetched replacements.
    pub fn close_gates(&mut self)
        ensures
            final(self)@ == gates_closed(old(self)@),
    {
        let ghost start = self@;
        let ids = self.replacements.ids();
        let mut i: usize = 0;
        while i < ids.len()
            invariant
                i <= ids@.len(),
                crate::journal::tables::increasing(ids@),
                forall|id: Id| ids@.contains(id) <==> start.replacements.contains_key(id),
                self@ == (JournalView { replacements: self@.replacements, ..start }),
                self@.replacements.dom() == start.replacements.dom(),
                forall|id: Id| #[trigger]
                    start.replacements.contains_key(id) ==> self@.replacements[id] == (
                    if ids@.subrange(0, i as int).contains(id) {
                        gated(start, id)
                    } else {
                        start.replacements[id]
                    }),
            decreases ids@.len() - i,
        {
            let id = ids[i];
            proof {
                crate::seqs::lemma_prefix_contains(ids@, i as int);
                assert(ids@.contains(ids@[i as int]));
                assert(!ids@.subrange(0, i as int).contains(id)) by {
                    if ids@.subrange(0, i as int).contains(id) {
                        let j = choose|j: int| 0 <= j < i && ids@.subrange(0, i as int)[j] == id;
                        assert(ids@[j] == id);
                    }
                }
                assert(start.replacements.contains_key(id));
                assert(self@.replacements.dom().contains(id));
                assert(needs_gate(self@, id) == needs_gate(start, id));
            }
            if self.wants_gate(id) {
                if let Some(found) = self.replacements.get(id) {
                    let mut record = *found;
                    record.local_ready = false;
                    self.replacements.put(id, record);
                }
            }
            proof {
                assert(self@.replacements.dom() =~= start.replacements.dom());
            }
            i = i + 1;
        }
        proof {
            assert(ids@.subrange(0, i as int) =~= ids@);
            assert(self@.replacements =~= gates_closed(start).replacements);
        }
    }
}

/// After a restart no attempt is in flight: whatever was, has to be verified first.
pub proof fn a_restart_leaves_no_attempt(journal: JournalView, id: Id)
    ensures
        journal.uploads.contains_key(id) ==> {
            let state = attempts_recovered(journal).uploads[id].state;
            state != UploadState::Uploading && state != UploadState::Verifying
        },
        journal.mutations.contains_key(id) ==> {
            let state = attempts_recovered(journal).mutations[id].state;
            state != MutationState::Applying && state != MutationState::Verifying
        },
{
}

/// A journal is opened only by its own account, with room to store something, and in a layout
/// that is known.
pub proof fn journals_are_opened_by_their_account(
    account: &str,
    quota: u64,
    version: u32,
    stored: &str,
    result: Result<(), JournalError>,
)
    requires
        call_ensures(check_store, (account, quota, version, stored), result),
    ensures
        result is Ok <==> account@.len() > 0 && quota > 0 && version <= 14 && stored@ == account@,
        account@.len() > 0 && quota > 0 && version > 14 ==> result == Err::<(), JournalError>(
            JournalError::Schema,
        ),
        account@.len() > 0 && quota > 0 && version <= 14 && stored@ != account@ ==> result == Err::<
            (),
            JournalError,
        >(JournalError::Account),
{
}

} // verus!
