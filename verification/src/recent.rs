//! What changed lately, for a window and a tray to show.
//!
//! "Recent" means changes to content: files and folders that arrived, changed or
//! went away on the cloud side, and saves made locally that are on their way or
//! have arrived. A bounded ring, in memory, for each account.
use crate::outside::read_seconds;
use crate::text::copy_optional;
use std::collections::VecDeque;
use vstd::prelude::*;

verus! {

/// How many remote changes an account remembers.
pub const CAPACITY: usize = 200;

/// One thing that changed on the cloud side.
#[derive(Debug)]
pub struct RemoteChange {
    pub at_unix: u64,
    pub id: String,
    pub parent_id: Option<String>,
    pub name: String,
    /// "file" or "folder".
    pub kind: String,
    pub size: u64,
    /// Gone from the cloud, rather than added or changed. The feed does not say
    /// which of those two an upsert is, and neither does this.
    pub removed: bool,
}

impl Clone for RemoteChange {
    fn clone(&self) -> (copy: Self)
        ensures
            copy == *self,
    {
        RemoteChange {
            at_unix: self.at_unix,
            id: self.id.clone(),
            parent_id: copy_optional(&self.parent_id),
            name: self.name.clone(),
            kind: self.kind.clone(),
            size: self.size,
            removed: self.removed,
        }
    }
}

/// One save made locally, from the upload journal.
#[derive(Debug)]
pub struct LocalChange {
    /// The journal's own order; larger is later.
    pub sequence: u64,
    /// The file's name, when the journal or the index knows it; the item's identity
    /// when neither does.
    pub name: String,
    /// For a replace, the item that the save replaces.
    pub item: Option<String>,
    /// The journal's word for the state.
    pub state: String,
    pub size: u64,
    /// When it was saved, in Unix seconds, where that is known.
    pub saved_at: Option<u64>,
}

impl Clone for LocalChange {
    fn clone(&self) -> (copy: Self)
        ensures
            copy == *self,
    {
        LocalChange {
            sequence: self.sequence,
            name: self.name.clone(),
            item: copy_optional(&self.item),
            state: self.state.clone(),
            size: self.size,
            saved_at: self.saved_at,
        }
    }
}

/// A ring after one more change: the oldest leaves a full ring.
pub open spec fn recorded(ring: Seq<RemoteChange>, change: RemoteChange) -> Seq<RemoteChange> {
    if ring.len() == CAPACITY {
        ring.subrange(1, ring.len() as int).push(change)
    } else {
        ring.push(change)
    }
}

/// The latest changes, the latest first.
pub open spec fn latest(ring: Seq<RemoteChange>, limit: int) -> Seq<RemoteChange> {
    Seq::new(
        (if limit < ring.len() {
            limit
        } else {
            ring.len() as int
        }) as nat,
        |i: int| ring[ring.len() - 1 - i],
    )
}

/// The latest remote changes of an account.
#[derive(Debug)]
pub struct RecentChanges {
    ring: VecDeque<RemoteChange>,
}

impl View for RecentChanges {
    type V = Seq<RemoteChange>;

    closed spec fn view(&self) -> Seq<RemoteChange> {
        self.ring@
    }
}

impl Default for RecentChanges {
    fn default() -> (recent: Self)
        ensures
            recent@ == Seq::<RemoteChange>::empty(),
    {
        RecentChanges { ring: VecDeque::new() }
    }
}

impl RecentChanges {
    /// Remembers a change.
    pub fn record(&mut self, change: RemoteChange)
        ensures
            final(self)@ == recorded(old(self)@, change),
    {
        if self.ring.len() == CAPACITY {
            self.ring.pop_front();
        }
        self.ring.push_back(change);
    }

    /// The latest first, at most `limit`.
    pub fn list(&self, limit: usize) -> (listed: Vec<RemoteChange>)
        ensures
            listed@ == latest(self@, limit as int),
    {
        let count: usize = if limit < self.ring.len() {
            limit
        } else {
            self.ring.len()
        };
        let mut listed: Vec<RemoteChange> = Vec::new();
        let mut i: usize = 0;
        while i < count
            invariant
                i <= count <= self.ring@.len(),
                listed@.len() == i,
                forall|j: int|
                    0 <= j < i ==> #[trigger] listed@[j] == self.ring@[self.ring@.len() - 1 - j],
            decreases count - i,
        {
            listed.push(self.ring[self.ring.len() - 1 - i].clone());
            i = i + 1;
        }
        listed
    }

    /// How many changes are remembered.
    pub fn len(&self) -> (len: usize)
        ensures
            len == self@.len(),
    {
        self.ring.len()
    }

    /// Whether nothing is remembered.
    pub fn is_empty(&self) -> (empty: bool)
        ensures
            empty == (self@.len() == 0),
    {
        self.len() == 0
    }
}

/// What a ring holds after a run of changes.
pub open spec fn replayed(ring: Seq<RemoteChange>, changes: Seq<RemoteChange>) -> Seq<RemoteChange>
    decreases changes.len(),
{
    if changes.len() == 0 {
        ring
    } else {
        recorded(replayed(ring, changes.drop_last()), changes.last())
    }
}

/// A ring that started empty is bounded and holds the latest changes, in order.
pub proof fn the_ring_holds_the_latest(changes: Seq<RemoteChange>)
    ensures
        replayed(Seq::empty(), changes) == changes.subrange(
            if changes.len() > CAPACITY {
                changes.len() - CAPACITY
            } else {
                0
            },
            changes.len() as int,
        ),
    decreases changes.len(),
{
    if changes.len() > 0 {
        the_ring_holds_the_latest(changes.drop_last());
        let before = replayed(Seq::empty(), changes.drop_last());
        let from = if changes.len() > CAPACITY {
            changes.len() - CAPACITY
        } else {
            0
        };
        assert(recorded(before, changes.last()) =~= changes.subrange(from, changes.len() as int));
    } else {
        assert(changes.subrange(0, 0) =~= Seq::<RemoteChange>::empty());
    }
}

/// The second that a reading stands for: zero before the start of Unix time.
pub open spec fn unix_second(reading: Option<u64>) -> u64 {
    match reading {
        Some(seconds) => seconds,
        None => 0,
    }
}

/// The second that a reading stands for.
pub fn second_of(reading: Option<u64>) -> (second: u64)
    ensures
        second == unix_second(reading),
{
    match reading {
        Some(seconds) => seconds,
        None => 0,
    }
}

/// The present Unix second.
pub fn now_unix() -> (second: u64)
    ensures
        exists|reading: Option<u64>| second == #[trigger] unix_second(reading),
{
    second_of(read_seconds())
}

/// The latest changes come first, as many as were asked for and are remembered.
pub proof fn the_latest_change_comes_first(ring: Seq<RemoteChange>, change: RemoteChange, limit: int)
    requires
        limit > 0,
        ring.len() <= CAPACITY,
    ensures
        ({
            let after = recorded(ring, change);
            &&& after.last() == change
            &&& after.len() <= CAPACITY
            &&& latest(after, limit)[0] == change
            &&& latest(after, limit).len() == (if limit < after.len() {
                limit
            } else {
                after.len() as int
            })
            &&& latest(after, limit).len() > 1 && ring.len() > 0 ==> latest(after, limit)[1]
                == ring.last()
            &&& ring.len() < CAPACITY ==> after == ring.push(change)
            &&& ring.len() == CAPACITY ==> after.drop_last() == ring.drop_first()
        }),
{
    if ring.len() == CAPACITY {
        assert(recorded(ring, change).drop_last() =~= ring.drop_first());
    }
}

} // verus!
