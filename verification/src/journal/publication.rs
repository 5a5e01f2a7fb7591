//! Coalesced local namespace changes, read at a committed frontier. One marker for
//! each object bounds storage independently of the number of writes.
use crate::journal::listing::{listing, select};
use crate::journal::namespace::{COUNTER_LIMIT, OBJECT_LIMIT};
use crate::journal::observation::same_id;
use crate::journal::records::{
    JournalError, JournalView, NamespaceObject, UploadJournal, WorkingFile,
};
use crate::model::Id;
use vstd::prelude::*;

verus! {

/// An object with its stream, as both stood at the frontier.
#[derive(Debug)]
pub struct NamespaceSnapshot {
    pub object: NamespaceObject,
    pub working: Option<WorkingFile>,
}

impl Clone for NamespaceSnapshot {
    fn clone(&self) -> (copy: Self)
        ensures
            copy == *self,
    {
        NamespaceSnapshot {
            object: self.object.clone(),
            working: match &self.working {
                Some(file) => Some(file.clone()),
                None => None,
            },
        }
    }
}

/// Every object that changed behind one place, up to another.
#[derive(Debug)]
pub struct NamespacePublication {
    pub after: u64,
    pub through: u64,
    pub objects: Vec<NamespaceSnapshot>,
}

/// The changes behind a place.
pub open spec fn changes_behind(after: u64) -> spec_fn(Id, u64) -> bool {
    |id: Id, at: u64| at > after
}

/// The object and the stream it names.
pub open spec fn snapshot_of(journal: JournalView, id: Id) -> Result<NamespaceSnapshot, JournalError> {
    if !journal.objects.contains_key(id) {
        Err(JournalError::Storage)
    } else {
        let object = journal.objects[id];
        let working = match object.working_file {
            Some(stream) => if journal.working.contains_key(stream) {
                Some(journal.working[stream])
            } else {
                None
            },
            None => None,
        };
        let named = match working {
            Some(file) => Some(file.id),
            None => None,
        };
        if object.working_file != named {
            Err(JournalError::Corrupt)
        } else {
            Ok(NamespaceSnapshot { object, working })
        }
    }
}

/// The first change whose snapshot cannot be taken.
pub open spec fn first_broken(journal: JournalView, rows: Seq<(u64, Id)>) -> Option<JournalError>
    decreases rows.len(),
{
    if rows.len() == 0 {
        None
    } else {
        match snapshot_of(journal, rows[0].1) {
            Err(error) => Some(error),
            Ok(_) => first_broken(journal, rows.drop_first()),
        }
    }
}

/// Why there is no publication behind a place.
pub open spec fn publication_refusal(journal: JournalView, after: u64, rows: Seq<(u64, Id)>) -> Option<
    JournalError,
> {
    if after > COUNTER_LIMIT || after > journal.clock {
        Some(JournalError::Stale)
    } else if first_broken(journal, rows) is Some {
        first_broken(journal, rows)
    } else if rows.len() > OBJECT_LIMIT {
        Some(JournalError::Quota)
    } else {
        None
    }
}

impl UploadJournal {
    /// The object and the stream it names.
    fn snapshot(&self, id: Id) -> (result: Result<NamespaceSnapshot, JournalError>)
        ensures
            result == snapshot_of(self@, id),
    {
        let object = match self.objects.get(id) {
            Some(object) => object.clone(),
            None => {
                return Err(JournalError::Storage);
            },
        };
        let working = match object.working_file {
            Some(stream) => match self.working.get(stream) {
                Some(file) => Some(file.clone()),
                None => None,
            },
            None => None,
        };
        let named: Option<Id> = match &working {
            Some(file) => Some(file.id),
            None => None,
        };
        if !same_id(object.working_file, named) {
            return Err(JournalError::Corrupt);
        }
        Ok(NamespaceSnapshot { object, working })
    }

    /// Every object that changed behind a place, with its current stream. The result
    /// is never split into pages: a page could split a replacement, or miss a later
    /// transfer of the same binding. A consumer moves its cursor only after it
    /// published the whole batch.
    pub fn namespace_publication(&self, after: u64) -> (result: Result<
        NamespacePublication,
        JournalError,
    >)
        ensures
            exists|rows: Seq<(u64, Id)>| #[trigger]
                listing(self@.changes, changes_behind(after), rows) && match result {
                    Err(error) => publication_refusal(self@, after, rows) == Some(error),
                    Ok(batch) => publication_refusal(self@, after, rows) is None && batch.after
                        == after && batch.through == self@.clock && batch.objects@.len()
                        == rows.len() && forall|i: int|
                        0 <= i < rows.len() ==> snapshot_of(self@, rows[i].1) == Ok::<
                            NamespaceSnapshot,
                            JournalError,
                        >(#[trigger] batch.objects@[i]),
                },
    {
        let keep = |id: Id, at: &u64| -> (kept: bool)
            ensures
                kept == (*at > after),
            { *at > after };
        let rows = select(&self.changes, keep, Ghost(changes_behind(after)));
        if after > COUNTER_LIMIT || after > self.clock {
            proof {
                assert(listing(self@.changes, changes_behind(after), rows@));
                assert(publication_refusal(self@, after, rows@) == Some(JournalError::Stale));
            }
            return Err(JournalError::Stale);
        }
        let mut objects: Vec<NamespaceSnapshot> = Vec::new();
        let mut i: usize = 0;
        proof {
            assert(rows@.subrange(0, rows@.len() as int) =~= rows@);
        }
        while i < rows.len()
            invariant
                i <= rows@.len(),
                objects@.len() == i,
                after <= COUNTER_LIMIT,
                after <= self@.clock,
                listing(self@.changes, changes_behind(after), rows@),
                first_broken(self@, rows@) == first_broken(
                    self@,
                    rows@.subrange(i as int, rows@.len() as int),
                ),
                forall|j: int|
                    0 <= j < i ==> snapshot_of(self@, rows@[j].1) == Ok::<
                        NamespaceSnapshot,
                        JournalError,
                    >(#[trigger] objects@[j]),
            decreases rows@.len() - i,
        {
            proof {
                let rest = rows@.subrange(i as int, rows@.len() as int);
                assert(rest[0] == rows@[i as int]);
                assert(rest.drop_first() =~= rows@.subrange(i + 1, rows@.len() as int));
            }
            let snapshot = self.snapshot(rows[i].1)?;
            objects.push(snapshot);
            i = i + 1;
        }
        if objects.len() > OBJECT_LIMIT {
            return Err(JournalError::Quota);
        }
        Ok(NamespacePublication { after, through: self.clock, objects })
    }
}

} // verus!
