//! Immutable records in a bounded file: which extent a record takes, when its space is
//! used again, which payloads stay in memory, and what a stored record must look like
//! to be believed.
use crate::bytes::{low_bytes, number_of, push_number, read_number};
use crate::digest::{digest_of, sha256};
use crate::filesystem::arena::{extent, extent_bytes, joined, partition, Arena, Slot, MAX_ORDER};
use crate::filesystem::cache::{kept, stands_at, caches, without, Cache, Cached};
use vstd::prelude::*;

verus! {

/// What the payloads in memory may be charged together.
pub const CACHE_BYTES: usize = 16_777_216;

/// The longest record body.
pub const RECORD_BYTES: usize = 4_194_304;

/// How many records may live at once.
pub const RECORDS: usize = 1_000_000;

/// How many retired records are cleaned up at a time.
pub const RETIRE_BATCH: usize = 4096;

/// The length and the digest that stand before a record body.
pub const HEADER_BYTES: usize = 36;

/// The size of the file of a mount.
pub const ARENA_BYTES: u64 = 1_073_741_824;

/// Why a record is not stored or not believed.
#[derive(Debug, Clone, Copy, PartialEq, Eq, Structural)]
pub enum StoreError {
    /// There is no room for it.
    Full,
    /// The storage does not hold what it should.
    Failure,
}

/// What stands before a record body: its length and its digest.
pub open spec fn header_of(body: Seq<u8>) -> Seq<u8> {
    low_bytes(body.len(), 4) + sha256(body)
}

/// The header for a record body, which must fit.
pub fn header(body: &[u8]) -> (result: Result<Vec<u8>, StoreError>)
    ensures
        match result {
            Ok(header) => body@.len() <= RECORD_BYTES && header@ == header_of(body@)
                && header@.len() == HEADER_BYTES,
            Err(error) => error == StoreError::Full && body@.len() > RECORD_BYTES,
        },
{
    if body.len() > RECORD_BYTES {
        return Err(StoreError::Full);
    }
    proof {
        crate::bytes::lemma_limits();
        crate::bytes::numbers_come_back(body@.len(), 4);
    }
    let mut header: Vec<u8> = Vec::new();
    push_number(&mut header, body.len() as u64, 4);
    let mut digest = digest_of(body);
    header.append(&mut digest);
    proof {
        assert(header@ =~= header_of(body@));
    }
    Ok(header)
}

/// The body length that a stored header gives, where an extent of this order can hold
/// it.
pub open spec fn stated_length(header: Seq<u8>, order: u32) -> Result<usize, StoreError> {
    let length = number_of(header.subrange(0, 4));
    if length > RECORD_BYTES || length + HEADER_BYTES > extent(order) {
        Err(StoreError::Failure)
    } else {
        Ok(length as usize)
    }
}

/// The body length that a stored header gives.
pub fn record_length(header: &[u8], order: u32) -> (result: Result<usize, StoreError>)
    requires
        header@.len() == HEADER_BYTES,
        order <= MAX_ORDER,
    ensures
        result == stated_length(header@, order),
{
    let length: u64 = read_number(header, 0, 4);
    let room: u64 = extent_bytes(order) as u64;
    if length > RECORD_BYTES as u64 || length + HEADER_BYTES as u64 > room {
        return Err(StoreError::Failure);
    }
    Ok(length as usize)
}

/// Refuses a body that is not the one the header was written for.
pub fn check_record(header: &[u8], body: &[u8]) -> (result: Result<(), StoreError>)
    requires
        header@.len() == HEADER_BYTES,
    ensures
        result == (if sha256(body@) == header@.subrange(4, HEADER_BYTES as int) {
            Ok::<(), StoreError>(())
        } else {
            Err(StoreError::Failure)
        }),
{
    let digest = digest_of(body);
    let ghost expected = header@.subrange(4, HEADER_BYTES as int);
    let mut i: usize = 0;
    while i < 32
        invariant
            i <= 32,
            header@.len() == HEADER_BYTES,
            digest@.len() == 32,
            digest@ == sha256(body@),
            expected == header@.subrange(4, HEADER_BYTES as int),
            forall|j: int| 0 <= j < i ==> digest@[j] == header@[j + 4],
        decreases 32 - i,
    {
        if digest[i] != header[i + 4] {
            proof {
                assert(expected[i as int] == header@[i + 4]);
                assert(digest@[i as int] != expected[i as int]);
            }
            return Err(StoreError::Failure);
        }
        i = i + 1;
    }
    proof {
        assert(digest@ =~= expected);
    }
    Ok(())
}

/// A stored record is believed, and its whole body read, in any extent it fits in.
pub proof fn stored_records_are_believed(body: Seq<u8>, order: u32)
    requires
        body.len() <= RECORD_BYTES,
        body.len() + HEADER_BYTES <= extent(order),
        sha256(body).len() == 32,
    ensures
        header_of(body).len() == HEADER_BYTES,
        stated_length(header_of(body), order) == Ok::<usize, StoreError>(body.len() as usize),
        header_of(body).subrange(4, HEADER_BYTES as int) == sha256(body),
{
    crate::bytes::lemma_limits();
    crate::bytes::numbers_come_back(body.len(), 4);
    assert(header_of(body).subrange(0, 4) =~= low_bytes(body.len(), 4));
    assert(header_of(body).subrange(4, HEADER_BYTES as int) =~= sha256(body));
}

/// A record: its identity, which is never used again, and its extent.
#[derive(Debug, Clone, Copy, PartialEq, Eq, Structural)]
pub struct Ticket {
    pub id: u64,
    pub slot: Slot,
}

/// What a store holds.
pub struct StoreView<T> {
    pub order: u32,
    pub free: Seq<Set<u32>>,
    pub live: Set<Slot>,
    pub cache: Seq<Cached<T>>,
    pub cache_limit: nat,
    pub rows: nat,
    pub row_limit: nat,
    pub next_id: u64,
    pub retired: Seq<Ticket>,
    pub records: Map<Slot, u64>,
}

/// The records of one mount.
pub struct Store<T> {
    pub arena: Arena,
    pub cache: Cache<T>,
    pub rows: usize,
    pub row_limit: usize,
    pub next_id: u64,
    pub retired: Vec<Ticket>,
    pub records: Ghost<Map<Slot, u64>>,
}

impl<T> View for Store<T> {
    type V = StoreView<T>;

    open spec fn view(&self) -> StoreView<T> {
        StoreView {
            order: self.arena.order,
            free: self.arena.levels(),
            live: self.arena.live@,
            cache: self.cache@,
            cache_limit: self.cache.limit as nat,
            rows: self.rows as nat,
            row_limit: self.row_limit as nat,
            next_id: self.next_id,
            retired: self.retired@,
            records: self.records@,
        }
    }
}

/// The retired records that the next cleanup takes: the latest ones, in order.
pub open spec fn next_batch(retired: Seq<Ticket>) -> Seq<Ticket> {
    if retired.len() <= RETIRE_BATCH {
        retired
    } else {
        retired.subrange(retired.len() - RETIRE_BATCH, retired.len() as int)
    }
}

/// The retired records that the next cleanup leaves.
pub open spec fn after_batch(retired: Seq<Ticket>) -> Seq<Ticket> {
    if retired.len() <= RETIRE_BATCH {
        Seq::empty()
    } else {
        retired.subrange(0, retired.len() - RETIRE_BATCH)
    }
}

/// The store once one record was cleaned up.
pub open spec fn cleaned<T>(store: StoreView<T>, ticket: Ticket) -> StoreView<T> {
    StoreView {
        free: joined(store.free, ticket.slot),
        live: store.live.remove(ticket.slot),
        cache: without(store.cache, ticket.id),
        rows: (store.rows - 1) as nat,
        records: store.records.remove(ticket.slot),
        ..store
    }
}

/// The store once some records were cleaned up, in order.
pub open spec fn cleaned_all<T>(store: StoreView<T>, tickets: Seq<Ticket>) -> StoreView<T>
    decreases tickets.len(),
{
    if tickets.len() == 0 {
        store
    } else {
        cleaned(cleaned_all(store, tickets.drop_last()), tickets.last())
    }
}

/// The store after one cleanup.
pub open spec fn collected<T>(store: StoreView<T>) -> StoreView<T> {
    cleaned_all(
        StoreView { retired: after_batch(store.retired), ..store },
        next_batch(store.retired),
    )
}

/// The record is known and its extent is its own.
pub open spec fn recorded(records: Map<Slot, u64>, ticket: Ticket) -> bool {
    records.contains_key(ticket.slot) && records[ticket.slot] == ticket.id
}

/// Each of these records is known, and none occurs twice.
pub open spec fn all_recorded(records: Map<Slot, u64>, tickets: Seq<Ticket>) -> bool {
    &&& forall|i: int| 0 <= i < tickets.len() ==> recorded(records, #[trigger] tickets[i])
    &&& forall|i: int, j: int|
        0 <= i < j < tickets.len() ==> (#[trigger] tickets[i]).slot != (
        #[trigger] tickets[j]).slot
}

impl<T> Store<T> {
    /// Every record has a live extent of its own, and every retired one is still
    /// counted.
    pub open spec fn wf(&self) -> bool {
        &&& self.arena.wf()
        &&& self.cache.wf()
        &&& self.records@.dom().finite()
        &&& self.rows == self.records@.len()
        &&& forall|slot: Slot| #[trigger]
            self.records@.contains_key(slot) ==> self.arena.live@.contains(slot)
        &&& all_recorded(self.records@, self.retired@)
    }

    /// An empty store over a file of this many bytes, which must be a power of two
    /// between 512 and a gibibyte.
    pub fn new(bytes: u64, cache_limit: usize, row_limit: usize) -> (result: Result<
        Self,
        StoreError,
    >)
        ensures
            match result {
                Ok(store) => store.wf() && store@.live == Set::<Slot>::empty() && store@.cache
                    == Seq::<Cached<T>>::empty() && store@.cache_limit == cache_limit && store@.rows
                    == 0 && store@.row_limit == row_limit && store@.next_id == 0 && store@.retired
                    == Seq::<Ticket>::empty() && store@.records == Map::<Slot, u64>::empty()
                    && bytes == extent(store@.order),
                Err(error) => error == StoreError::Failure && forall|order: u32|
                    crate::filesystem::arena::MIN_ORDER <= order <= MAX_ORDER ==> bytes
                        != #[trigger] extent(order),
            },
    {
        match Arena::new(bytes) {
            Some(arena) => {
                let store = Store {
                    arena,
                    cache: Cache::new(cache_limit),
                    rows: 0,
                    row_limit,
                    next_id: 0,
                    retired: Vec::new(),
                    records: Ghost(Map::empty()),
                };
                proof {
                    assert(store.records@.dom() =~= Set::<Slot>::empty());
                }
                Ok(store)
            },
            None => Err(StoreError::Failure),
        }
    }

    /// Notes that a record is no longer read. Its space is used again only after a
    /// cleanup.
    pub fn retire(&mut self, ticket: Ticket)
        requires
            old(self).wf(),
            recorded(old(self)@.records, ticket),
            forall|i: int|
                0 <= i < old(self)@.retired.len() ==> (#[trigger] old(self)@.retired[i]).slot
                    != ticket.slot,
        ensures
            final(self).wf(),
            final(self)@ == (StoreView {
                retired: old(self)@.retired.push(ticket),
                ..old(self)@
            }),
    {
        self.retired.push(ticket);
    }

    /// Cleans up at most a batch of retired records.
    pub fn collect(&mut self)
        requires
            old(self).wf(),
        ensures
            final(self).wf(),
            final(self)@ == collected(old(self)@),
    {
        let ghost start = self@;
        let mut batch: Vec<Ticket> = Vec::new();
        let length = self.retired.len();
        let first: usize = if length <= RETIRE_BATCH {
            0
        } else {
            length - RETIRE_BATCH
        };
        let mut i: usize = first;
        while i < length
            invariant
                first <= i <= length,
                length == self.retired@.len(),
                batch@ == self.retired@.subrange(first as int, i as int),
            decreases length - i,
        {
            batch.push(self.retired[i]);
            proof {
                assert(self.retired@.subrange(first as int, i + 1) =~= self.retired@.subrange(
                    first as int,
                    i as int,
                ).push(self.retired@[i as int]));
            }
            i = i + 1;
        }
        proof {
            assert(batch@ =~= next_batch(start.retired));
            assert(all_recorded(start.records, batch@)) by {
                assert forall|i: int| 0 <= i < batch@.len() implies recorded(
                    start.records,
                    #[trigger] batch@[i],
                ) by {
                    assert(batch@[i] == start.retired[first + i]);
                }
                assert forall|i: int, j: int| 0 <= i < j < batch@.len() implies (
                #[trigger] batch@[i]).slot != (#[trigger] batch@[j]).slot by {
                    assert(batch@[i] == start.retired[first + i]);
                    assert(batch@[j] == start.retired[first + j]);
                }
            }
        }
        self.retired.truncate(first);
        proof {
            assert(self.retired@ =~= after_batch(start.retired));
        }
        let ghost base = StoreView { retired: after_batch(start.retired), ..start };
        let mut k: usize = 0;
        proof {
            assert(batch@.subrange(0, 0) =~= Seq::<Ticket>::empty());
            assert(self@ == cleaned_all(base, batch@.subrange(0, 0)));
        }
        while k < batch.len()
            invariant
                k <= batch@.len(),
                first + batch@.len() == start.retired.len(),
                batch@ == start.retired.subrange(first as int, start.retired.len() as int),
                self.wf(),
                self.retired@ == start.retired.subrange(0, first as int),
                first <= start.retired.len(),
                all_recorded(start.records, start.retired),
                self@ == cleaned_all(base, batch@.subrange(0, k as int)),
                forall|i: int|
                    0 <= i < start.retired.len() ==> ((first <= i < first + k) || recorded(
                        self.records@,
                        #[trigger] start.retired[i],
                    )),
            decreases batch@.len() - k,
        {
            let ticket = batch[k];
            let ghost before = self@;
            proof {
                assert(ticket == start.retired[first + k]);
                assert(recorded(self.records@, ticket));
                assert(self.records@.dom().contains(ticket.slot));
                assert(self.records@.dom().len() > 0) by {
                    if self.records@.dom().len() == 0 {
                        assert(self.records@.dom() =~= Set::<Slot>::empty());
                    }
                }
            }
            self.cache.drop_entry(ticket.id);
            self.arena.release(ticket.slot);
            self.rows = self.rows - 1;
            self.records = Ghost(self.records@.remove(ticket.slot));
            proof {
                let done = batch@.subrange(0, k + 1);
                assert(done.drop_last() =~= batch@.subrange(0, k as int));
                assert(done.last() == ticket);
                assert(self@ == cleaned(before, ticket));
                assert(self.records@.dom() =~= before.records.dom().remove(ticket.slot));
                assert forall|i: int| 0 <= i < start.retired.len() && !(first <= i < first + k
                    + 1) implies recorded(self.records@, #[trigger] start.retired[i]) by {
                    assert(recorded(before.records, start.retired[i]));
                    assert(start.retired[i].slot != start.retired[first + k].slot);
                }
                assert forall|i: int| 0 <= i < self.retired@.len() implies recorded(
                    self.records@,
                    #[trigger] self.retired@[i],
                ) by {
                    assert(self.retired@[i] == start.retired[i]);
                }
            }
            k = k + 1;
        }
        proof {
            assert(batch@.subrange(0, k as int) =~= batch@);
        }
    }

    /// Takes an extent for a record of this many body bytes, after a cleanup. The
    /// record is stored once its bytes are written and it is committed.
    pub fn reserve(&mut self, length: usize) -> (result: Result<Ticket, StoreError>)
        requires
            old(self).wf(),
        ensures
            final(self).wf(),
            length > RECORD_BYTES ==> result == Err::<Ticket, StoreError>(StoreError::Full)
                && final(self)@ == old(self)@,
            length <= RECORD_BYTES ==> reservation(
                collected(old(self)@),
                length as nat,
                result,
                final(self)@,
            ),
    {
        if length > RECORD_BYTES {
            return Err(StoreError::Full);
        }
        self.collect();
        let ghost swept = self@;
        if self.rows >= self.row_limit {
            return Err(StoreError::Full);
        }
        if self.next_id == u64::MAX {
            return Err(StoreError::Failure);
        }
        let id: u64 = self.next_id + 1;
        let ghost arena = self.arena;
        match self.arena.allocate(length + HEADER_BYTES) {
            Some(slot) => {
                proof {
                    assert(self.records@ == swept.records);
                    if self.records@.contains_key(slot) {
                        assert(swept.live.contains(slot));
                    }
                    assert(swept.free == arena.levels());
                    let from = choose|from: u32| #[trigger]
                        crate::filesystem::arena::served_from(arena.levels(), slot, from)
                            && self.arena.levels() == crate::filesystem::arena::split(
                            arena.levels(),
                            slot.offset,
                            slot.order,
                            from,
                        );
                    assert(crate::filesystem::arena::served_from(swept.free, slot, from));
                    assert(self@.free == self.arena.levels());
                }
                Ok(Ticket { id, slot })
            },
            None => {
                proof {
                    assert(self.arena == arena);
                }
                Err(StoreError::Full)
            },
        }
    }

    /// Gives the extent of an admitted record back whose bytes could not be written.
    pub fn abandon(&mut self, ticket: Ticket)
        requires
            old(self).wf(),
            old(self)@.live.contains(ticket.slot),
            !old(self)@.records.contains_key(ticket.slot),
        ensures
            final(self).wf(),
            final(self)@ == (StoreView {
                free: joined(old(self)@.free, ticket.slot),
                live: old(self)@.live.remove(ticket.slot),
                ..old(self)@
            }),
    {
        self.arena.release(ticket.slot);
    }

    /// Stores an admitted record whose bytes are written.
    pub fn commit(&mut self, ticket: Ticket, data: T, charge: usize)
        requires
            old(self).wf(),
            old(self)@.live.contains(ticket.slot),
            !old(self)@.records.contains_key(ticket.slot),
            old(self)@.rows < old(self)@.row_limit,
        ensures
            final(self).wf(),
            final(self)@ == (StoreView {
                next_id: ticket.id,
                rows: old(self)@.rows + 1,
                cache: kept(
                    old(self)@.cache,
                    (Cached { id: ticket.id, data, bytes: charge }),
                    old(self)@.cache_limit,
                ),
                records: old(self)@.records.insert(ticket.slot, ticket.id),
                ..old(self)@
            }),
    {
        let ghost before = self@;
        self.next_id = ticket.id;
        self.rows = self.rows + 1;
        self.cache.keep(ticket.id, data, charge);
        self.records = Ghost(self.records@.insert(ticket.slot, ticket.id));
        proof {
            assert(self.records@.dom() =~= before.records.dom().insert(ticket.slot));
            assert forall|i: int| 0 <= i < self.retired@.len() implies recorded(
                self.records@,
                #[trigger] self.retired@[i],
            ) by {
                assert(recorded(before.records, before.retired[i]));
            }
        }
    }

    /// Whether a record's payload is in memory; where it is, it becomes the newest.
    pub fn touch(&mut self, ticket: Ticket) -> (found: bool)
        requires
            old(self).wf(),
        ensures
            final(self).wf(),
            found == caches(old(self)@.cache, ticket.id),
            found ==> exists|place: int| #[trigger]
                stands_at(old(self)@.cache, ticket.id, place) && final(self)@ == (StoreView {
                    cache: kept(
                        old(self)@.cache,
                        old(self)@.cache[place],
                        old(self)@.cache_limit,
                    ),
                    ..old(self)@
                }),
            !found ==> final(self)@ == old(self)@,
    {
        self.cache.touch(ticket.id)
    }

    /// The payload of a record, where it is in memory.
    pub fn peek(&self, ticket: Ticket) -> (data: Option<&T>)
        ensures
            match data {
                Some(data) => exists|place: int| #[trigger]
                    stands_at(self@.cache, ticket.id, place) && *data == self@.cache[place].data,
                None => !caches(self@.cache, ticket.id),
            },
    {
        let data = self.cache.peek(ticket.id);
        proof {
            assert(self@.cache == self.cache@);
            if data is Some {
                let place = choose|place: int| #[trigger]
                    stands_at(self.cache@, ticket.id, place) && *data->0
                        == self.cache@[place].data;
                assert(stands_at(self@.cache, ticket.id, place));
            }
        }
        data
    }

    /// Keeps the payload of a record that was read and believed.
    pub fn keep(&mut self, ticket: Ticket, data: T, charge: usize)
        requires
            old(self).wf(),
        ensures
            final(self).wf(),
            final(self)@ == (StoreView {
                cache: kept(
                    old(self)@.cache,
                    (Cached { id: ticket.id, data, bytes: charge }),
                    old(self)@.cache_limit,
                ),
                ..old(self)@
            }),
    {
        self.cache.keep(ticket.id, data, charge);
    }

    /// The charge and number of the payloads in memory, and the number of records.
    pub fn usage(&self) -> (usage: (usize, usize, usize))
        requires
            self.wf(),
        ensures
            usage.0 == crate::filesystem::cache::charged(self@.cache),
            usage.1 == self@.cache.len(),
            usage.2 == self@.rows,
    {
        (self.cache.bytes, self.cache.entries.len(), self.rows)
    }

    /// The bytes of the extents in use.
    pub fn reserved_bytes(&self) -> (bytes: u64)
        requires
            self.wf(),
        ensures
            bytes == crate::filesystem::arena::reserved(self@.live),
    {
        self.arena.reserved
    }
}

/// What an admission comes to, on a store that was just cleaned up.
pub open spec fn reservation<T>(
    store: StoreView<T>,
    length: nat,
    result: Result<Ticket, StoreError>,
    after: StoreView<T>,
) -> bool {
    let bytes = length + HEADER_BYTES as nat;
    match result {
        Ok(ticket) => {
            &&& store.rows < store.row_limit
            &&& ticket.id == store.next_id + 1
            &&& crate::filesystem::arena::is_order_for(bytes, ticket.slot.order)
            &&& !store.live.contains(ticket.slot)
            &&& !store.records.contains_key(ticket.slot)
            &&& after.live == store.live.insert(ticket.slot)
            &&& after == (StoreView { free: after.free, live: after.live, ..store })
            &&& exists|from: u32| #[trigger]
                crate::filesystem::arena::served_from(store.free, ticket.slot, from) && after.free
                    == crate::filesystem::arena::split(
                    store.free,
                    ticket.slot.offset,
                    ticket.slot.order,
                    from,
                )
        },
        Err(error) => {
            &&& after == store
            &&& if store.rows >= store.row_limit {
                error == StoreError::Full
            } else if store.next_id == u64::MAX {
                error == StoreError::Failure
            } else {
                error == StoreError::Full && no_room(store.order, store.free, bytes)
            }
        },
    }
}

/// No free extent is large enough.
pub open spec fn no_room(order: u32, free: Seq<Set<u32>>, bytes: nat) -> bool {
    bytes > extent(order) || exists|least: u32| #[trigger]
        crate::filesystem::arena::is_order_for(bytes, least) && least <= order && forall|n: int|
            least <= n <= order ==> #[trigger] free[n] == Set::<u32>::empty()
}

/// A record that is admitted takes no byte of another live record.
pub proof fn admissions_overwrite_nothing<T>(
    store: StoreView<T>,
    length: nat,
    ticket: Ticket,
    after: StoreView<T>,
    other: Slot,
)
    requires
        reservation(store, length, Ok(ticket), after),
        partition(after.order, after.free, after.live),
        store.live.contains(other),
    ensures
        crate::filesystem::arena::apart(ticket.slot, other),
{
    crate::filesystem::arena::live_extents_share_no_byte(
        after.order,
        after.free,
        after.live,
        ticket.slot,
        other,
    );
}

/// A cleanup takes the latest retired records, 4096 at most, and leaves the others in order.
pub proof fn cleanups_take_a_batch(retired: Seq<Ticket>)
    ensures
        after_batch(retired) + next_batch(retired) == retired,
        next_batch(retired).len() == (if retired.len() <= 4096 {
            retired.len() as int
        } else {
            4096
        }),
{
    assert(after_batch(retired) + next_batch(retired) =~= retired);
}

/// A cleanup frees the extent of every record of its batch, forgets the record and its
/// payload, and counts it no more. Everything else stays.
pub proof fn cleaned_records_are_gone<T>(store: StoreView<T>, tickets: Seq<Ticket>, slot: Slot)
    requires
        tickets.len() <= store.rows,
    ensures
        ({
            let after = cleaned_all(store, tickets);
            let taken = exists|i: int|
                0 <= i < tickets.len() && (#[trigger] tickets[i]).slot == slot;
            &&& after.live.contains(slot) <==> store.live.contains(slot) && !taken
            &&& after.records.contains_key(slot) <==> store.records.contains_key(slot) && !taken
            &&& after.records.contains_key(slot) ==> after.records[slot] == store.records[slot]
            &&& after.rows == store.rows - tickets.len()
            &&& after.next_id == store.next_id
            &&& after.row_limit == store.row_limit
            &&& after.cache_limit == store.cache_limit
            &&& after.retired == store.retired
        }),
    decreases tickets.len(),
{
    if tickets.len() > 0 {
        let rest = tickets.drop_last();
        cleaned_records_are_gone(store, rest, slot);
        assert(tickets[tickets.len() - 1] == tickets.last());
        assert forall|i: int| 0 <= i < rest.len() implies rest[i] == tickets[i] by {}
        if exists|i: int| 0 <= i < rest.len() && (#[trigger] rest[i]).slot == slot {
            let i = choose|i: int| 0 <= i < rest.len() && (#[trigger] rest[i]).slot == slot;
            assert(tickets[i].slot == slot);
        }
        if exists|i: int| 0 <= i < tickets.len() && (#[trigger] tickets[i]).slot == slot {
            let i = choose|i: int| 0 <= i < tickets.len() && (#[trigger] tickets[i]).slot == slot;
            if i < rest.len() {
                assert(rest[i].slot == slot);
            }
        }
    }
}

/// A record is admitted wherever records are left, identities are left and a free extent is
/// large enough. It gets the next identity and an extent that holds it and its header, of the
/// least size that does.
pub proof fn records_are_admitted_where_there_is_room<T>(
    store: StoreView<T>,
    length: nat,
    result: Result<Ticket, StoreError>,
    after: StoreView<T>,
)
    requires
        reservation(store, length, result, after),
    ensures
        store.rows < store.row_limit && store.next_id < u64::MAX && !no_room(
            store.order,
            store.free,
            length + 36,
        ) ==> result is Ok,
        store.rows >= store.row_limit ==> result == Err::<Ticket, StoreError>(StoreError::Full),
        result matches Ok(ticket) ==> {
            &&& ticket.id == store.next_id + 1
            &&& length + 36 <= extent(ticket.slot.order)
            &&& ticket.slot.order == 9 || extent((ticket.slot.order - 1) as u32) < length + 36
            &&& after.live == store.live.insert(ticket.slot)
            &&& after.rows == store.rows
            &&& after.records == store.records
        },
        result is Err ==> after == store,
{
}

/// A header gives a length only where the body can be that long and lies in its extent.
pub proof fn stated_lengths_stay_within_the_extent(header: Seq<u8>, order: u32)
    ensures
        stated_length(header, order) matches Ok(length) ==> length == number_of(
            header.subrange(0, 4),
        ) && length <= 4_194_304 && length + 36 <= extent(order),
        stated_length(header, order) is Err ==> stated_length(header, order)->Err_0
            == StoreError::Failure && (number_of(header.subrange(0, 4)) > 4_194_304 || number_of(
            header.subrange(0, 4),
        ) + 36 > extent(order)),
{
}

} // verus!
