use cirrove_service::filesystem::arena::{Arena, Slot};
use cirrove_service::filesystem::payloads::{
    check_record, header, record_length, Store, StoreError, Ticket, HEADER_BYTES, RECORD_BYTES,
};

/// A store over a file that is kept in memory.
struct Disk {
    store: Store<Vec<u8>>,
    file: Vec<u8>,
}

/// What a payload is charged.
fn charge(body: &[u8]) -> usize {
    64 + body.len()
}

fn projection(name: &str) -> Vec<u8> {
    format!(
        "[\"account\",\"target-item\",\"{name}\",[\"source-drive\",\"shortcut-item\"],true,\
         \"original-etag\",\"original-content\"]"
    )
    .into_bytes()
}

impl Disk {
    fn limited(cache: usize, rows: usize, pages: u64) -> Self {
        Disk {
            store: Store::new(pages * 4096, cache, rows).unwrap(),
            file: Vec::new(),
        }
    }
    fn write(&mut self, bytes: &[u8], at: usize) {
        if self.file.len() < at + bytes.len() {
            self.file.resize(at + bytes.len(), 0);
        }
        self.file[at..at + bytes.len()].copy_from_slice(bytes);
    }
    fn save(&mut self, body: Vec<u8>) -> Result<Ticket, StoreError> {
        let head = header(&body)?;
        let ticket = self.store.reserve(body.len())?;
        let at = ticket.slot.offset as usize;
        self.write(&head, at);
        self.write(&body, at + HEADER_BYTES);
        let cost = charge(&body);
        self.store.commit(ticket, body, cost);
        Ok(ticket)
    }
    fn load(&mut self, ticket: Ticket) -> Result<Vec<u8>, StoreError> {
        if self.store.touch(ticket) {
            return Ok(self.store.peek(ticket).unwrap().clone());
        }
        let at = ticket.slot.offset as usize;
        let head = self.file[at..at + HEADER_BYTES].to_vec();
        let length = record_length(&head, ticket.slot.order)?;
        let body = self.file[at + HEADER_BYTES..at + HEADER_BYTES + length].to_vec();
        check_record(&head, &body)?;
        let cost = charge(&body);
        self.store.keep(ticket, body.clone(), cost);
        Ok(body)
    }
    fn retire(&mut self, ticket: Ticket) {
        self.store.retire(ticket);
    }
}

#[test]
fn eviction_restores_complete_immutable_versions_and_routes() {
    let old = projection("old-name");
    let budget = charge(&old);
    let mut disk = Disk::limited(budget, 4, 512);
    let first = disk.save(old.clone()).unwrap();
    let second = disk.save(projection("new-name")).unwrap();
    assert_eq!(disk.store.usage(), (budget, 1, 2));
    assert!(disk.store.peek(first).is_none());
    let restored = disk.load(first).unwrap();
    assert_eq!(old, restored);
    assert_eq!(disk.store.usage(), (budget, 1, 2));
    disk.retire(first);
    disk.store.collect();
    assert_eq!(disk.store.usage().2, 1);
    assert_eq!(disk.load(second).unwrap(), projection("new-name"));
    disk.retire(second);
    disk.store.collect();
    assert_eq!(disk.store.usage(), (0, 0, 0));
}

#[test]
fn live_records_enforce_quota_and_retirement_reuses_admission() {
    let mut disk = Disk::limited(0, 1, 512);
    let first = disk.save(projection("original")).unwrap();
    assert_eq!(disk.save(projection("replacement")), Err(StoreError::Full));
    assert_eq!(disk.load(first).unwrap(), projection("original"));
    let id = first.id;
    // Retiring only queues the cleanup.
    disk.retire(first);
    let replacement = disk.save(projection("replacement")).unwrap();
    assert_ne!(id, replacement.id);
    assert!(disk.store.peek(first).is_none());
    assert_eq!(disk.store.usage(), (0, 0, 1));
}

#[test]
fn corrupt_record_never_enters_cache() {
    let mut disk = Disk::limited(0, 4, 512);
    let record = disk.save(projection("original")).unwrap();
    disk.write(b"!", record.slot.offset as usize + HEADER_BYTES);
    assert_eq!(disk.load(record), Err(StoreError::Failure));
    assert_eq!(disk.store.usage().0, 0);
}

#[test]
fn disk_and_record_limits_preserve_previously_admitted_data() {
    let mut disk = Disk::limited(0, 10, 16);
    let first = disk.save(projection("original")).unwrap();
    assert_eq!(
        disk.save(projection(&"x".repeat(128 * 1024))),
        Err(StoreError::Full)
    );
    assert_eq!(disk.store.usage().2, 1);
    assert_eq!(disk.load(first).unwrap(), projection("original"));
    assert_eq!(
        disk.save(projection(&"x".repeat(RECORD_BYTES))),
        Err(StoreError::Full)
    );
    assert_eq!(disk.store.usage().2, 1);
}

#[test]
fn retired_small_extents_coalesce_for_larger_records() {
    let mut disk = Disk::limited(0, 32, 4);
    let mut records = Vec::new();
    while let Ok(record) = disk.save(projection("small")) {
        records.push(record);
    }
    assert!(records.len() > 4);
    assert_eq!(disk.store.reserved_bytes(), 16384);
    for record in records {
        disk.retire(record);
    }
    disk.store.collect();
    assert_eq!(disk.store.reserved_bytes(), 0);
    let big = disk.save(projection(&"b".repeat(1500))).unwrap();
    assert_eq!(disk.load(big).unwrap(), projection(&"b".repeat(1500)));
    assert!(disk.file.len() <= 16384);
}

#[test]
fn repeated_size_changes_reuse_space_without_overwriting_live_records() {
    let mut disk = Disk::limited(0, 64, 256);
    let mut live: Vec<(Ticket, String)> = Vec::new();
    let mut random = 12345u32;
    for round in 0..512 {
        random = random.wrapping_mul(1664525).wrapping_add(1013904223);
        let name = format!("{round}-{}", "x".repeat(random as usize % 4096));
        if live.len() == 32 {
            let (gone, _) = live.remove(random as usize % live.len());
            disk.retire(gone);
        }
        let record = disk.save(projection(&name)).unwrap();
        live.push((record, name));
        for (record, expected) in live.iter().step_by(7) {
            let record = *record;
            assert_eq!(disk.load(record).unwrap(), projection(expected));
        }
        assert!(disk.file.len() <= 1024 * 1024);
    }
    for (record, _) in live {
        disk.retire(record);
    }
    disk.store.collect();
    assert_eq!(disk.store.reserved_bytes(), 0);
    let order = disk.store.arena.order as usize;
    assert_eq!(disk.store.arena.free[order].items, vec![0]);
    assert!(disk.store.arena.free[..order]
        .iter()
        .all(|level| level.items.is_empty()));
}

#[test]
fn extents_are_powers_of_two_and_split_at_the_low_end() {
    let mut arena = Arena::new(4096).unwrap();
    let first = arena.allocate(1).unwrap();
    assert_eq!(first, Slot { offset: 0, order: 9 });
    let second = arena.allocate(513).unwrap();
    assert_eq!(
        second,
        Slot {
            offset: 1024,
            order: 10
        }
    );
    let third = arena.allocate(512).unwrap();
    assert_eq!(
        third,
        Slot {
            offset: 512,
            order: 9
        }
    );
    assert_eq!(arena.allocate(4096), None);
    arena.release(first);
    arena.release(third);
    arena.release(second);
    assert_eq!(
        arena.allocate(4096),
        Some(Slot {
            offset: 0,
            order: 12
        })
    );
    assert!(Arena::new(4095).is_none());
    assert!(Arena::new(256).is_none());
    assert!(Arena::new(1 << 31).is_none());
}

#[test]
fn a_header_holds_the_length_and_the_digest() {
    let head = header(b"abc").unwrap();
    assert_eq!(head.len(), HEADER_BYTES);
    assert_eq!(head[..4], [3, 0, 0, 0]);
    assert_eq!(head[4..8], [0xba, 0x78, 0x16, 0xbf]);
    assert_eq!(record_length(&head, 9), Ok(3));
    assert_eq!(check_record(&head, b"abc"), Ok(()));
    assert_eq!(check_record(&head, b"abd"), Err(StoreError::Failure));
    let mut long = head.clone();
    long[1] = 2;
    assert_eq!(record_length(&long, 9), Err(StoreError::Failure));
    long[3] = 1;
    assert_eq!(record_length(&long, 30), Err(StoreError::Failure));
    assert_eq!(header(&vec![0; RECORD_BYTES + 1]), Err(StoreError::Full));
}

#[test]
fn an_abandoned_record_leaves_no_trace() {
    let mut store: Store<u8> = Store::new(1024, 0, 4).unwrap();
    let ticket = store.reserve(1000 - HEADER_BYTES).unwrap();
    assert_eq!(store.reserve(1), Err(StoreError::Full));
    store.abandon(ticket);
    assert_eq!(store.reserved_bytes(), 0);
    assert_eq!(store.usage(), (0, 0, 0));
    assert_eq!(store.reserve(1).unwrap().id, 1);
    store.next_id = u64::MAX;
    assert_eq!(store.reserve(1), Err(StoreError::Failure));
    assert!(matches!(
        Store::<u8>::new(1000, 0, 4),
        Err(StoreError::Failure)
    ));
}

#[test]
fn an_extent_given_back_at_once_leaves_the_arena_as_it_was() {
    let mut arena = Arena::new(8192).unwrap();
    let kept = arena.allocate(700).unwrap();
    arena.allocate(512).unwrap();
    let levels = |arena: &Arena| -> Vec<Vec<u32>> {
        arena.free.iter().map(|level| level.items.clone()).collect()
    };
    for bytes in [1, 512, 513, 1500, 4096] {
        let before = (levels(&arena), arena.reserved);
        let slot = arena.allocate(bytes).unwrap();
        assert_ne!(before.0, levels(&arena));
        arena.release(slot);
        assert_eq!(before, (levels(&arena), arena.reserved));
    }
    arena.release(kept);
    assert_eq!(arena.reserved, 512);
}

#[test]
fn a_record_reads_the_same_until_it_is_retired() {
    let mut store = Disk::limited(64, 8, 2);
    let first = store.save(b"first".to_vec()).unwrap();
    let mut others = Vec::new();
    for round in 0u8..20 {
        let other = store.save(vec![round; 300 + 10 * round as usize]).unwrap();
        assert_eq!(store.load(first), Ok(b"first".to_vec()));
        others.push(other);
        if others.len() == 3 {
            let old = others.remove(0);
            store.retire(old);
        }
    }
    store.retire(first);
    assert_eq!(store.load(others[0]), Ok(vec![18; 480]));
}
