//! What a record gives back when it is read, over any run of calls on its store.
use crate::digest::sha256;
use crate::filesystem::arena::{
    apart, extent, held, joined, live_extents_share_no_byte, partition, Slot,
};
use crate::filesystem::cache::{caches, evicted, kept, stands_at, without, Cached};
use crate::filesystem::payloads::{
    all_recorded, cleaned_all, collected, header_of, next_batch, recorded, reservation,
    stated_length, stored_records_are_believed, StoreError, StoreView, Store, Ticket,
    HEADER_BYTES, RECORD_BYTES,
};
use vstd::prelude::*;

verus! {

/// A store, the bytes of its file, and what was saved under each identity.
pub struct Held<T> {
    pub store: StoreView<T>,
    pub file: Seq<u8>,
    pub saved: Map<u64, (Seq<u8>, T)>,
}

/// One call on a store.
pub enum StoreCall<T> {
    /// A record was admitted, written and stored.
    Save { ticket: Ticket, body: Seq<u8>, data: T, charge: usize },
    /// A record was admitted, some bytes were written, and its extent was given back.
    Fail { ticket: Ticket, length: nat, written: Seq<u8> },
    /// A record was refused after a cleanup.
    Refuse { length: nat, error: StoreError },
    /// A record is no longer read.
    Retire { ticket: Ticket },
    /// Some retired records were cleaned up.
    Collect,
    /// A record was read.
    Load { ticket: Ticket, charge: usize },
}

/// The file once some bytes were written.
pub open spec fn written_at(file: Seq<u8>, offset: int, bytes: Seq<u8>) -> Seq<u8> {
    Seq::new(
        file.len(),
        |i: int|
            if offset <= i < offset + bytes.len() {
                bytes[i - offset]
            } else {
                file[i]
            },
    )
}

/// What stands in an extent, where it is believed; `read` gives the payload of a body.
pub open spec fn read_back<T>(file: Seq<u8>, slot: Slot, read: spec_fn(Seq<u8>) -> T) -> Result<
    T,
    StoreError,
> {
    let start = slot.offset as int;
    let header = file.subrange(start, start + HEADER_BYTES);
    match stated_length(header, slot.order) {
        Ok(length) => {
            let body = file.subrange(start + HEADER_BYTES, start + HEADER_BYTES + length);
            if sha256(body) == header.subrange(4, HEADER_BYTES as int) {
                Ok(read(body))
            } else {
                Err(StoreError::Failure)
            }
        },
        Err(error) => Err(error),
    }
}

/// What a load gives: the payload in memory, or what stands in the extent.
pub open spec fn loads<T>(
    before: Held<T>,
    ticket: Ticket,
    read: spec_fn(Seq<u8>) -> T,
    result: Result<T, StoreError>,
) -> bool {
    if caches(before.store.cache, ticket.id) {
        exists|place: int| #[trigger]
            stands_at(before.store.cache, ticket.id, place) && result == Ok::<T, StoreError>(
                before.store.cache[place].data,
            )
    } else {
        result == read_back(before.file, ticket.slot, read)
    }
}

/// The store once an admitted record was stored.
pub open spec fn committed<T>(
    store: StoreView<T>,
    ticket: Ticket,
    data: T,
    charge: usize,
) -> StoreView<T> {
    StoreView {
        next_id: ticket.id,
        rows: store.rows + 1,
        cache: kept(store.cache, Cached { id: ticket.id, data, bytes: charge }, store.cache_limit),
        records: store.records.insert(ticket.slot, ticket.id),
        ..store
    }
}

/// One call leads from one state to another.
pub open spec fn follows<T>(
    before: Held<T>,
    call: StoreCall<T>,
    after: Held<T>,
    read: spec_fn(Seq<u8>) -> T,
) -> bool {
    match call {
        StoreCall::Save { ticket, body, data, charge } => {
            &&& body.len() <= RECORD_BYTES
            &&& sha256(body).len() == 32
            &&& data == read(body)
            &&& exists|admitted: StoreView<T>| #[trigger]
                reservation(collected(before.store), body.len(), Ok(ticket), admitted)
                    && after.store == committed(admitted, ticket, data, charge)
            &&& after.file == written_at(
                before.file,
                ticket.slot.offset as int,
                header_of(body) + body,
            )
            &&& after.saved == before.saved.insert(ticket.id, (body, data))
        },
        StoreCall::Fail { ticket, length, written } => {
            &&& written.len() <= length + HEADER_BYTES
            &&& exists|admitted: StoreView<T>| #[trigger]
                reservation(collected(before.store), length, Ok(ticket), admitted)
                    && after.store == (StoreView {
                    free: joined(admitted.free, ticket.slot),
                    live: admitted.live.remove(ticket.slot),
                    ..admitted
                }) && partition(admitted.order, admitted.free, admitted.live)
            &&& after.file == written_at(before.file, ticket.slot.offset as int, written)
            &&& after.saved == before.saved
        },
        StoreCall::Refuse { length, error } => {
            &&& reservation(collected(before.store), length, Err(error), after.store)
                || after.store == before.store
            &&& after.file == before.file
            &&& after.saved == before.saved
        },
        StoreCall::Retire { ticket } => {
            &&& recorded(before.store.records, ticket)
            &&& after.store == (StoreView {
                retired: before.store.retired.push(ticket),
                ..before.store
            })
            &&& after.file == before.file
            &&& after.saved == before.saved
        },
        StoreCall::Collect => {
            &&& after.store == collected(before.store)
            &&& after.file == before.file
            &&& after.saved == before.saved
        },
        StoreCall::Load { ticket, charge } => {
            &&& recorded(before.store.records, ticket)
            &&& exists|result: Result<T, StoreError>| #[trigger]
                loads(before, ticket, read, result) && (match result {
                    Ok(data) => caches_newest(before.store, ticket, data, charge, after.store),
                    Err(_) => after.store == before.store,
                })
            &&& after.file == before.file
            &&& after.saved == before.saved
        },
    }
}

/// A payload that was read is the newest in memory.
pub open spec fn caches_newest<T>(
    before: StoreView<T>,
    ticket: Ticket,
    data: T,
    charge: usize,
    after: StoreView<T>,
) -> bool {
    after == (StoreView {
        cache: kept(
            before.cache,
            Cached { id: ticket.id, data, bytes: charge },
            before.cache_limit,
        ),
        ..before
    })
}

/// What the type's invariant says of a store.
pub open spec fn valid<T>(store: StoreView<T>) -> bool {
    &&& partition(store.order, store.free, store.live)
    &&& forall|slot: Slot| #[trigger]
        store.records.contains_key(slot) ==> store.live.contains(slot)
    &&& all_recorded(store.records, store.retired)
}

/// Every store that keeps its invariant is valid.
pub proof fn stores_are_valid<T>(store: Store<T>)
    requires
        store.wf(),
    ensures
        valid(store@),
{
}

/// The bytes of a record stand in its extent, and it is known by this identity.
pub open spec fn stands<T>(state: Held<T>, slot: Slot, id: u64) -> bool {
    let (body, data) = state.saved[id];
    let start = slot.offset as int;
    &&& id <= state.store.next_id
    &&& state.saved.contains_key(id)
    &&& body.len() <= RECORD_BYTES
    &&& body.len() + HEADER_BYTES <= extent(slot.order)
    &&& sha256(body).len() == 32
    &&& start + extent(slot.order) <= state.file.len()
    &&& state.file.subrange(start, start + HEADER_BYTES + body.len()) == header_of(body) + body
}

/// Every record stands in its extent, and what is in memory is what was saved.
pub open spec fn intact<T>(state: Held<T>, read: spec_fn(Seq<u8>) -> T) -> bool {
    &&& valid(state.store)
    &&& state.file.len() == extent(state.store.order)
    &&& forall|slot: Slot| #[trigger]
        state.store.records.contains_key(slot) ==> stands(state, slot, state.store.records[slot])
    &&& forall|a: Slot, b: Slot|
        #![trigger state.store.records[a], state.store.records[b]]
        state.store.records.contains_key(a) && state.store.records.contains_key(b)
            && state.store.records[a] == state.store.records[b] ==> a == b
    &&& forall|i: int|
        0 <= i < state.store.cache.len() ==> remembers(state, #[trigger] state.store.cache[i])
    &&& forall|id: u64| #[trigger]
        state.saved.contains_key(id) ==> state.saved[id].1 == read(state.saved[id].0)
}

/// What is in memory under an identity was saved under it.
pub open spec fn remembers<T>(state: Held<T>, entry: Cached<T>) -> bool {
    &&& entry.id <= state.store.next_id
    &&& state.saved.contains_key(entry.id)
    &&& state.saved[entry.id].1 == entry.data
}

proof fn lemma_without_members<T>(entries: Seq<Cached<T>>, id: u64)
    ensures
        forall|i: int|
            0 <= i < without(entries, id).len() ==> entries.contains(
                #[trigger] without(entries, id)[i],
            ),
{
    let rest = without(entries, id);
    if caches(entries, id) {
        let place = choose|place: int| stands_at(entries, id, place);
        assert forall|i: int| 0 <= i < rest.len() implies entries.contains(#[trigger] rest[i]) by {
            if i < place {
                assert(rest[i] == entries[i]);
            } else {
                assert(rest[i] == entries[i + 1]);
            }
        }
    }
}

proof fn lemma_evicted_members<T>(entries: Seq<Cached<T>>, bytes: nat, limit: nat)
    ensures
        forall|i: int|
            0 <= i < evicted(entries, bytes, limit).len() ==> entries.contains(
                #[trigger] evicted(entries, bytes, limit)[i],
            ),
    decreases entries.len(),
{
    if entries.len() > 0 {
        let less = entries.drop_first();
        lemma_evicted_members(less, bytes, limit);
        let left = evicted(entries, bytes, limit);
        assert forall|i: int| 0 <= i < left.len() implies entries.contains(#[trigger] left[i]) by {
            if left != entries {
                assert(left == evicted(less, bytes, limit));
                assert(less.contains(left[i]));
                let j = choose|j: int| 0 <= j < less.len() && less[j] == left[i];
                assert(entries[j + 1] == left[i]);
            }
        }
    }
}

/// Keeping an entry brings nothing else into memory.
proof fn lemma_kept_members<T>(entries: Seq<Cached<T>>, entry: Cached<T>, limit: nat)
    ensures
        forall|i: int|
            0 <= i < kept(entries, entry, limit).len() ==> (#[trigger] kept(
                entries,
                entry,
                limit,
            )[i]) == entry || entries.contains(kept(entries, entry, limit)[i]),
{
    let rest = without(entries, entry.id);
    let bytes = entry.bytes as nat;
    lemma_without_members(entries, entry.id);
    lemma_evicted_members(rest, bytes, limit);
    let all = kept(entries, entry, limit);
    assert forall|i: int| 0 <= i < all.len() implies (#[trigger] all[i]) == entry
        || entries.contains(all[i]) by {
        if entry.bytes <= limit && i < all.len() - 1 {
            assert(all[i] == evicted(rest, bytes, limit)[i]);
            let j = choose|j: int| 0 <= j < rest.len() && rest[j] == all[i];
            assert(entries.contains(rest[j]));
        } else if entry.bytes > limit {
            assert(all[i] == rest[i]);
        }
    }
}

/// A cleanup takes records and payloads away and changes none.
proof fn lemma_cleaned<T>(store: StoreView<T>, tickets: Seq<Ticket>)
    ensures
        ({
            let after = cleaned_all(store, tickets);
            &&& after.order == store.order
            &&& after.next_id == store.next_id
            &&& after.retired == store.retired
            &&& forall|slot: Slot| #[trigger]
                after.records.contains_key(slot) ==> store.records.contains_key(slot)
                    && after.records[slot] == store.records[slot]
            &&& forall|slot: Slot|
                (forall|i: int| 0 <= i < tickets.len() ==> (#[trigger] tickets[i]).slot != slot)
                    && store.records.contains_key(slot) ==> #[trigger] after.records.contains_key(
                    slot,
                )
            &&& forall|i: int|
                0 <= i < after.cache.len() ==> store.cache.contains(#[trigger] after.cache[i])
        }),
    decreases tickets.len(),
{
    if tickets.len() > 0 {
        let front = tickets.drop_last();
        let last = tickets.last();
        lemma_cleaned(store, front);
        let middle = cleaned_all(store, front);
        let after = cleaned_all(store, tickets);
        lemma_without_members(middle.cache, last.id);
        assert forall|i: int| 0 <= i < after.cache.len() implies store.cache.contains(
            #[trigger] after.cache[i],
        ) by {
            assert(middle.cache.contains(after.cache[i]));
            let j = choose|j: int| 0 <= j < middle.cache.len() && middle.cache[j] == after.cache[i];
            assert(store.cache.contains(middle.cache[j]));
        }
        assert forall|slot: Slot|
            (forall|i: int| 0 <= i < tickets.len() ==> (#[trigger] tickets[i]).slot != slot)
                && store.records.contains_key(slot) implies #[trigger] after.records.contains_key(
            slot,
        ) by {
            assert forall|i: int| 0 <= i < front.len() implies (#[trigger] front[i]).slot
                != slot by {
                assert(tickets[i] == front[i]);
            }
            assert(tickets[tickets.len() - 1].slot != slot);
            assert(middle.records.contains_key(slot));
        }
    }
}

/// What a cleanup does to the records.
proof fn lemma_collected<T>(store: StoreView<T>)
    ensures
        ({
            let after = collected(store);
            &&& after.order == store.order
            &&& after.next_id == store.next_id
            &&& forall|slot: Slot| #[trigger]
                after.records.contains_key(slot) ==> store.records.contains_key(slot)
                    && after.records[slot] == store.records[slot]
            &&& forall|slot: Slot|
                !retires(store, slot) && store.records.contains_key(slot)
                    ==> #[trigger] after.records.contains_key(slot) && !retires(after, slot)
            &&& forall|i: int|
                0 <= i < after.cache.len() ==> store.cache.contains(#[trigger] after.cache[i])
        }),
{
    let base = StoreView {
        retired: crate::filesystem::payloads::after_batch(store.retired),
        ..store
    };
    let batch = next_batch(store.retired);
    let after = collected(store);
    lemma_cleaned(base, batch);
    let first = store.retired.len() - batch.len();
    assert forall|slot: Slot|
        !retires(store, slot) && store.records.contains_key(
            slot,
        ) implies #[trigger] after.records.contains_key(slot) && !retires(after, slot) by {
        assert forall|i: int| 0 <= i < batch.len() implies (#[trigger] batch[i]).slot != slot by {
            assert(batch[i] == store.retired[first + i]);
        }
        assert(base.records.contains_key(slot));
        if retires(after, slot) {
            let i = choose|i: int|
                0 <= i < after.retired.len() && (#[trigger] after.retired[i]).slot == slot;
            assert(store.retired[i] == after.retired[i]);
        }
    }
}

/// The extent belongs to a retired record.
pub open spec fn retires<T>(store: StoreView<T>, slot: Slot) -> bool {
    exists|i: int| 0 <= i < store.retired.len() && (#[trigger] store.retired[i]).slot == slot
}

/// Bytes that are written into one extent leave every record elsewhere alone.
proof fn lemma_elsewhere(
    file: Seq<u8>,
    slot: Slot,
    bytes: Seq<u8>,
    other: Slot,
    length: int,
)
    requires
        apart(slot, other),
        bytes.len() <= extent(slot.order),
        0 <= length <= extent(other.order),
        other.offset + extent(other.order) <= file.len(),
    ensures
        written_at(file, slot.offset as int, bytes).subrange(
            other.offset as int,
            other.offset + length,
        ) == file.subrange(other.offset as int, other.offset + length),
{
    assert(written_at(file, slot.offset as int, bytes).subrange(
        other.offset as int,
        other.offset + length,
    ) =~= file.subrange(other.offset as int, other.offset + length));
}

/// Every call keeps all records as they were saved.
pub proof fn calls_keep_records_intact<T>(
    before: Held<T>,
    call: StoreCall<T>,
    after: Held<T>,
    read: spec_fn(Seq<u8>) -> T,
)
    requires
        intact(before, read),
        follows(before, call, after, read),
        valid(after.store),
    ensures
        intact(after, read),
{
    lemma_collected(before.store);
    match call {
        StoreCall::Save { ticket, body, data, charge } => {
            let swept = collected(before.store);
            let admitted = choose|admitted: StoreView<T>| #[trigger]
                reservation(swept, body.len(), Ok(ticket), admitted) && after.store == committed(
                    admitted,
                    ticket,
                    data,
                    charge,
                );
            let entry = Cached { id: ticket.id, data, bytes: charge };
            lemma_kept_members(swept.cache, entry, swept.cache_limit);
            stored_records_are_believed(body, ticket.slot.order);
            assert(after.store.live.contains(ticket.slot));
            assert(held(after.store.free, after.store.live, ticket.slot));
            let bytes = header_of(body) + body;
            assert forall|slot: Slot| #[trigger] after.store.records.contains_key(slot) implies stands(
                after,
                slot,
                after.store.records[slot],
            ) by {
                if slot == ticket.slot {
                    let start = slot.offset as int;
                    assert(after.file.subrange(start, start + HEADER_BYTES + body.len())
                        =~= bytes);
                } else {
                    assert(before.store.records.contains_key(slot));
                    assert(stands(before, slot, before.store.records[slot]));
                    live_extents_share_no_byte(
                        after.store.order,
                        after.store.free,
                        after.store.live,
                        ticket.slot,
                        slot,
                    );
                    let one = before.saved[before.store.records[slot]].0;
                    lemma_elsewhere(
                        before.file,
                        ticket.slot,
                        bytes,
                        slot,
                        HEADER_BYTES + one.len(),
                    );
                }
            }
            assert forall|a: Slot, b: Slot|
                #![trigger after.store.records[a], after.store.records[b]]
                after.store.records.contains_key(a) && after.store.records.contains_key(b)
                    && after.store.records[a] == after.store.records[b] implies a == b by {
                if a != ticket.slot {
                    assert(stands(before, a, before.store.records[a]));
                }
                if b != ticket.slot {
                    assert(stands(before, b, before.store.records[b]));
                }
            }
            assert forall|i: int| 0 <= i < after.store.cache.len() implies remembers(
                after,
                #[trigger] after.store.cache[i],
            ) by {
                lemma_remembered(before, after, swept.cache, entry, i);
            }
        },
        StoreCall::Fail { ticket, length, written } => {
            let swept = collected(before.store);
            let admitted = choose|admitted: StoreView<T>| #[trigger]
                reservation(swept, length, Ok(ticket), admitted) && after.store == (StoreView {
                    free: joined(admitted.free, ticket.slot),
                    live: admitted.live.remove(ticket.slot),
                    ..admitted
                }) && partition(admitted.order, admitted.free, admitted.live);
            assert forall|slot: Slot| #[trigger] after.store.records.contains_key(slot) implies stands(
                after,
                slot,
                after.store.records[slot],
            ) by {
                assert(before.store.records.contains_key(slot));
                assert(stands(before, slot, before.store.records[slot]));
                assert(after.store.live.contains(slot));
                live_extents_share_no_byte(
                    admitted.order,
                    admitted.free,
                    admitted.live,
                    ticket.slot,
                    slot,
                );
                let one = before.saved[before.store.records[slot]].0;
                lemma_elsewhere(
                    before.file,
                    ticket.slot,
                    written,
                    slot,
                    HEADER_BYTES + one.len(),
                );
            }
            lemma_still_remembered(before, after);
        },
        StoreCall::Refuse { length, error } => {
            assert forall|slot: Slot| #[trigger] after.store.records.contains_key(slot) implies stands(
                after,
                slot,
                after.store.records[slot],
            ) by {
                assert(before.store.records.contains_key(slot));
                assert(stands(before, slot, before.store.records[slot]));
            }
            if after.store == before.store {
                assert forall|i: int| 0 <= i < after.store.cache.len() implies remembers(
                    after,
                    #[trigger] after.store.cache[i],
                ) by {
                    assert(remembers(before, before.store.cache[i]));
                }
            } else {
                lemma_still_remembered(before, after);
            }
        },
        StoreCall::Retire { ticket } => {
            assert forall|slot: Slot| #[trigger] after.store.records.contains_key(slot) implies stands(
                after,
                slot,
                after.store.records[slot],
            ) by {
                assert(stands(before, slot, before.store.records[slot]));
            }
            assert forall|i: int| 0 <= i < after.store.cache.len() implies remembers(
                after,
                #[trigger] after.store.cache[i],
            ) by {
                assert(remembers(before, before.store.cache[i]));
            }
        },
        StoreCall::Collect => {
            assert forall|slot: Slot| #[trigger] after.store.records.contains_key(slot) implies stands(
                after,
                slot,
                after.store.records[slot],
            ) by {
                assert(before.store.records.contains_key(slot));
                assert(stands(before, slot, before.store.records[slot]));
            }
            lemma_still_remembered(before, after);
        },
        StoreCall::Load { ticket, charge } => {
            let result = choose|result: Result<T, StoreError>| #[trigger]
                loads(before, ticket, read, result) && (match result {
                    Ok(data) => caches_newest(before.store, ticket, data, charge, after.store),
                    Err(_) => after.store == before.store,
                });
            loads_give_what_is_saved(before, ticket, read, result);
            let data = before.saved[ticket.id].1;
            let entry = Cached { id: ticket.id, data, bytes: charge };
            lemma_kept_members(before.store.cache, entry, before.store.cache_limit);
            assert(before.store.records.contains_key(ticket.slot));
            assert forall|slot: Slot| #[trigger] after.store.records.contains_key(slot) implies stands(
                after,
                slot,
                after.store.records[slot],
            ) by {
                assert(stands(before, slot, before.store.records[slot]));
            }
            assert forall|i: int| 0 <= i < after.store.cache.len() implies remembers(
                after,
                #[trigger] after.store.cache[i],
            ) by {
                let one = after.store.cache[i];
                assert(after.store.cache == kept(
                    before.store.cache,
                    entry,
                    before.store.cache_limit,
                ));
                if one != entry {
                    let j = choose|j: int|
                        0 <= j < before.store.cache.len() && before.store.cache[j] == one;
                    assert(remembers(before, before.store.cache[j]));
                }
            }
        },
    }
}

proof fn lemma_remembered<T>(
    before: Held<T>,
    after: Held<T>,
    swept: Seq<Cached<T>>,
    entry: Cached<T>,
    i: int,
)
    requires
        0 <= i < after.store.cache.len(),
        after.store.cache[i] == entry || swept.contains(after.store.cache[i]),
        forall|k: int| 0 <= k < swept.len() ==> before.store.cache.contains(#[trigger] swept[k]),
        forall|k: int|
            0 <= k < before.store.cache.len() ==> remembers(
                before,
                #[trigger] before.store.cache[k],
            ),
        after.store.next_id == before.store.next_id + 1,
        entry.id == after.store.next_id,
        after.saved.contains_key(entry.id) && after.saved[entry.id].1 == entry.data,
        after.saved == before.saved.insert(entry.id, after.saved[entry.id]),
    ensures
        remembers(after, after.store.cache[i]),
{
    let one = after.store.cache[i];
    if one != entry {
        let k = choose|k: int| 0 <= k < swept.len() && swept[k] == one;
        assert(before.store.cache.contains(swept[k]));
        let j = choose|j: int| 0 <= j < before.store.cache.len() && before.store.cache[j] == one;
        assert(remembers(before, before.store.cache[j]));
    }
}

proof fn lemma_still_remembered<T>(before: Held<T>, after: Held<T>)
    requires
        forall|k: int|
            0 <= k < before.store.cache.len() ==> remembers(
                before,
                #[trigger] before.store.cache[k],
            ),
        forall|i: int|
            0 <= i < after.store.cache.len() ==> before.store.cache.contains(
                #[trigger] after.store.cache[i],
            ),
        after.saved == before.saved,
        after.store.next_id == before.store.next_id,
    ensures
        forall|i: int|
            0 <= i < after.store.cache.len() ==> remembers(after, #[trigger] after.store.cache[i]),
{
    assert forall|i: int| 0 <= i < after.store.cache.len() implies remembers(
        after,
        #[trigger] after.store.cache[i],
    ) by {
        let one = after.store.cache[i];
        let j = choose|j: int| 0 <= j < before.store.cache.len() && before.store.cache[j] == one;
        assert(remembers(before, before.store.cache[j]));
    }
}

/// A load of a record gives what was saved under its identity, whether it is in memory
/// or read from the file.
pub proof fn loads_give_what_is_saved<T>(
    state: Held<T>,
    ticket: Ticket,
    read: spec_fn(Seq<u8>) -> T,
    result: Result<T, StoreError>,
)
    requires
        intact(state, read),
        recorded(state.store.records, ticket),
        loads(state, ticket, read, result),
    ensures
        state.saved.contains_key(ticket.id),
        result == Ok::<T, StoreError>(state.saved[ticket.id].1),
{
    assert(stands(state, ticket.slot, ticket.id));
    if caches(state.store.cache, ticket.id) {
        let place = choose|place: int| #[trigger]
            stands_at(state.store.cache, ticket.id, place) && result == Ok::<T, StoreError>(
                state.store.cache[place].data,
            );
        assert(remembers(state, state.store.cache[place]));
    } else {
        let (body, data) = state.saved[ticket.id];
        let start = ticket.slot.offset as int;
        let whole = state.file.subrange(start, start + HEADER_BYTES + body.len());
        stored_records_are_believed(body, ticket.slot.order);
        assert(state.file.subrange(start, start + HEADER_BYTES) =~= whole.subrange(
            0,
            HEADER_BYTES as int,
        ));
        assert(whole.subrange(0, HEADER_BYTES as int) =~= header_of(body));
        assert(state.file.subrange(start + HEADER_BYTES, start + HEADER_BYTES + body.len())
            =~= whole.subrange(HEADER_BYTES as int, HEADER_BYTES + body.len()));
        assert(whole.subrange(HEADER_BYTES as int, HEADER_BYTES + body.len()) =~= body);
    }
}

/// A run of calls.
pub open spec fn runs<T>(
    states: Seq<Held<T>>,
    calls: Seq<StoreCall<T>>,
    read: spec_fn(Seq<u8>) -> T,
) -> bool {
    &&& states.len() == calls.len() + 1
    &&& forall|i: int| 0 <= i < states.len() ==> valid((#[trigger] states[i]).store)
    &&& forall|i: int|
        0 <= i < calls.len() ==> follows(states[i], #[trigger] calls[i], states[i + 1], read)
}

/// Nothing is stored yet.
pub open spec fn fresh<T>(state: Held<T>) -> bool {
    &&& state.store.records == Map::<Slot, u64>::empty()
    &&& state.store.cache == Seq::<Cached<T>>::empty()
    &&& state.saved == Map::<u64, (Seq<u8>, T)>::empty()
    &&& state.file.len() == extent(state.store.order)
}

proof fn lemma_all_intact<T>(
    states: Seq<Held<T>>,
    calls: Seq<StoreCall<T>>,
    read: spec_fn(Seq<u8>) -> T,
    i: int,
)
    requires
        runs(states, calls, read),
        fresh(states[0]),
        0 <= i < states.len(),
    ensures
        intact(states[i], read),
    decreases i,
{
    assert(valid(states[i].store));
    if i > 0 {
        lemma_all_intact(states, calls, read, i - 1);
        assert(follows(states[i - 1], calls[i - 1], states[i], read));
        calls_keep_records_intact(states[i - 1], calls[i - 1], states[i], read);
    }
}

/// The record is known, not retired, and saved as this.
pub open spec fn keeps<T>(state: Held<T>, ticket: Ticket, body: Seq<u8>, data: T) -> bool {
    &&& recorded(state.store.records, ticket)
    &&& !retires(state.store, ticket.slot)
    &&& state.saved.contains_key(ticket.id)
    &&& state.saved[ticket.id] == (body, data)
}

proof fn lemma_saved<T>(before: Held<T>, call: StoreCall<T>, after: Held<T>, read: spec_fn(Seq<u8>) -> T)
    requires
        intact(before, read),
        valid(after.store),
        follows(before, call, after, read),
        call is Save,
    ensures
        match call {
            StoreCall::Save { ticket, body, data, .. } => keeps(after, ticket, body, data),
            _ => true,
        },
{
    if let StoreCall::Save { ticket, body, data, charge } = call {
        let swept = collected(before.store);
        lemma_collected(before.store);
        if retires(after.store, ticket.slot) {
            let i = choose|i: int|
                0 <= i < after.store.retired.len() && (#[trigger] after.store.retired[i]).slot
                    == ticket.slot;
            lemma_retired_left(before.store, i);
            assert(before.store.retired.contains(after.store.retired[i]));
            let j = choose|j: int|
                0 <= j < before.store.retired.len() && before.store.retired[j]
                    == after.store.retired[i];
            assert(recorded(before.store.records, before.store.retired[j]));
            assert(stands(before, ticket.slot, before.store.records[ticket.slot]));
            assert(recorded(after.store.records, after.store.retired[i]));
            assert(false);
        }
    }
}

proof fn lemma_retired_left<T>(store: StoreView<T>, i: int)
    requires
        0 <= i < collected(store).retired.len(),
    ensures
        store.retired.contains(collected(store).retired[i]),
{
    let base = StoreView {
        retired: crate::filesystem::payloads::after_batch(store.retired),
        ..store
    };
    lemma_cleaned(base, next_batch(store.retired));
    assert(store.retired[i] == collected(store).retired[i]);
}

proof fn lemma_kept_until_retired<T>(
    before: Held<T>,
    call: StoreCall<T>,
    after: Held<T>,
    read: spec_fn(Seq<u8>) -> T,
    ticket: Ticket,
    body: Seq<u8>,
    data: T,
)
    requires
        intact(before, read),
        valid(after.store),
        follows(before, call, after, read),
        keeps(before, ticket, body, data),
        call != (StoreCall::<T>::Retire { ticket }),
    ensures
        keeps(after, ticket, body, data),
{
    lemma_collected(before.store);
    assert(stands(before, ticket.slot, ticket.id));
    let swept = collected(before.store);
    match call {
        StoreCall::Save { ticket: other, .. } => {
            assert(swept.records.contains_key(ticket.slot));
        },
        StoreCall::Retire { ticket: other } => {
            if retires(after.store, ticket.slot) {
                let i = choose|i: int|
                    0 <= i < after.store.retired.len() && (#[trigger] after.store.retired[i]).slot
                        == ticket.slot;
                if i < before.store.retired.len() {
                    assert(before.store.retired[i] == after.store.retired[i]);
                }
                assert(false);
            }
        },
        StoreCall::Load { .. } => {
            if retires(after.store, ticket.slot) {
                let i = choose|i: int|
                    0 <= i < after.store.retired.len() && (#[trigger] after.store.retired[i]).slot
                        == ticket.slot;
                assert(before.store.retired[i] == after.store.retired[i]);
            }
        },
        _ => {
            assert(swept.records.contains_key(ticket.slot));
        },
    }
}

proof fn lemma_kept_through<T>(
    states: Seq<Held<T>>,
    calls: Seq<StoreCall<T>>,
    read: spec_fn(Seq<u8>) -> T,
    at: int,
    i: int,
    ticket: Ticket,
    body: Seq<u8>,
    data: T,
)
    requires
        runs(states, calls, read),
        fresh(states[0]),
        0 <= at < i < states.len(),
        calls[at] matches StoreCall::Save { ticket: t, body: b, data: d, .. } && t == ticket && b
            == body && d == data,
        forall|k: int|
            at < k < calls.len() ==> #[trigger] calls[k] != (StoreCall::<T>::Retire { ticket }),
    ensures
        keeps(states[i], ticket, body, data),
    decreases i - at,
{
    lemma_all_intact(states, calls, read, i - 1);
    assert(valid(states[i].store));
    assert(follows(states[i - 1], calls[i - 1], states[i], read));
    if i == at + 1 {
        lemma_saved(states[at], calls[at], states[i], read);
    } else {
        lemma_kept_through(states, calls, read, at, i - 1, ticket, body, data);
        lemma_kept_until_retired(states[i - 1], calls[i - 1], states[i], read, ticket, body, data);
    }
}

/// A load gives back what was saved: over any run of calls on a new store, a record
/// that was saved and not retired since is found, believed and read as it was saved,
/// whatever was saved, retired, cleaned up or read in between.
pub proof fn loads_give_back_what_was_saved<T>(
    states: Seq<Held<T>>,
    calls: Seq<StoreCall<T>>,
    read: spec_fn(Seq<u8>) -> T,
    at: int,
    ticket: Ticket,
    body: Seq<u8>,
    data: T,
    result: Result<T, StoreError>,
)
    requires
        runs(states, calls, read),
        fresh(states[0]),
        0 <= at < calls.len(),
        calls[at] matches StoreCall::Save { ticket: t, body: b, data: d, .. } && t == ticket && b
            == body && d == data,
        forall|k: int|
            at < k < calls.len() ==> #[trigger] calls[k] != (StoreCall::<T>::Retire { ticket }),
        loads(states.last(), ticket, read, result),
    ensures
        result == Ok::<T, StoreError>(data),
        read_back(states.last().file, ticket.slot, read) == Ok::<T, StoreError>(data),
{
    let end = states.len() - 1;
    lemma_kept_through(states, calls, read, at, end, ticket, body, data);
    lemma_all_intact(states, calls, read, end);
    loads_give_what_is_saved(states[end], ticket, read, result);
    let bare = Held {
        store: StoreView { cache: Seq::<Cached<T>>::empty(), ..states[end].store },
        ..states[end]
    };
    assert(intact(bare, read)) by {
        assert forall|slot: Slot| #[trigger] bare.store.records.contains_key(slot) implies stands(
            bare,
            slot,
            bare.store.records[slot],
        ) by {
            assert(stands(states[end], slot, states[end].store.records[slot]));
        }
    }
    assert(!caches(bare.store.cache, ticket.id));
    loads_give_what_is_saved(bare, ticket, read, read_back(bare.file, ticket.slot, read));
}

} // verus!
