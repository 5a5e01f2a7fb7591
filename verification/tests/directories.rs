use cirrove_service::filesystem::directories::{
    decode, page, read_entries, ready, span, window, Backing, Budget, Builder, Entry,
    ListingError, Progress, Storing, Waiting, HEADER_BYTES, INDEX_BYTES, MAX_BYTES,
    MAX_SNAPSHOTS, PAGE_BYTES, PAGE_ENTRIES, SPILL_BYTES,
};

/// A listing with its bytes: in memory, or in two files that are kept here.
struct Listing {
    builder: Builder,
    backing: Backing,
    files: Option<(Vec<u8>, Vec<u8>)>,
    spill: Result<(), i32>,
}

impl Listing {
    fn start(budget: &mut Budget) -> Result<Self, ListingError> {
        Ok(Listing {
            builder: budget.start()?,
            backing: Backing::Resident {
                data: Vec::new(),
                index: Vec::new(),
            },
            files: None,
            spill: Ok(()),
        })
    }
    fn store(&mut self) -> Result<(), ListingError> {
        match self.builder.store(&mut self.backing)? {
            Storing::Done => {}
            Storing::Spill => {
                self.spill.map_err(ListingError::System)?;
                if let Backing::Resident { data, index } = &self.backing {
                    self.files = Some((data.clone(), index.clone()));
                }
                self.backing = Backing::Files;
                self.write();
            }
            Storing::Write => self.write(),
        }
        Ok(())
    }
    fn write(&mut self) {
        let files = self.files.as_mut().unwrap();
        files.0.extend_from_slice(&self.builder.pending_data);
        files.1.extend_from_slice(&self.builder.pending_index);
        self.builder.written();
    }
    fn push(
        &mut self,
        budget: &mut Budget,
        inode: u64,
        directory: bool,
        name: &str,
    ) -> Result<(), ListingError> {
        if self.builder.push(budget, inode, directory, name)? {
            if let Err(error) = self.store() {
                self.builder.fail(error);
                return Err(error);
            }
        }
        Ok(())
    }
    fn publish(&mut self, complete: bool) -> Result<(), ListingError> {
        self.builder.check_publish(false)?;
        if let Err(error) = self.store() {
            self.builder.fail(error);
            return Err(error);
        }
        self.builder.advance(complete);
        Ok(())
    }
    fn resident(&self) -> bool {
        matches!(self.backing, Backing::Resident { .. })
    }
    fn page(&self, offset: u64) -> Result<Vec<Entry>, ListingError> {
        let progress = self.builder.progress;
        match &self.backing {
            Backing::Resident { data, index } => page(progress, false, data, index, offset),
            Backing::Files => {
                let (data, index) = self.files.as_ref().unwrap();
                let Some(found) = window(progress, false, offset)? else {
                    return Ok(Vec::new());
                };
                let at = found.at as usize;
                let place = span(progress, found, &index[at..at + found.length])?;
                let start = place.start() as usize;
                read_entries(&place, &data[start..start + place.length()])
            }
        }
    }
}

#[test]
fn pages_preserve_cookies_names_and_independent_reader_positions() {
    let mut budget = Budget::new();
    let mut listing = Listing::start(&mut budget).unwrap();
    let names = (0..2400)
        .map(|i| format!("Äpfel-{i}-{}", "x".repeat(i % 300)))
        .collect::<Vec<_>>();
    for (i, name) in names.iter().enumerate() {
        listing
            .push(&mut budget, i as u64 + 1, i % 2 == 0, name)
            .unwrap();
    }
    listing.publish(true).unwrap();
    let progress = listing.builder.progress;
    assert_eq!(progress.entries, names.len() as u64);
    assert!(!listing.resident(), "a 2400-entry listing must spill");
    assert_eq!(
        budget.usage().0,
        progress.data_bytes + names.len() as u64 * INDEX_BYTES
    );
    for start in [0, 713, 2031] {
        let mut cursor = start;
        while cursor < names.len() {
            let page = listing.page(cursor as u64).unwrap();
            assert!(!page.is_empty());
            assert!(page.len() <= PAGE_ENTRIES);
            assert!(
                page.iter()
                    .map(|e| e.name.len() + HEADER_BYTES)
                    .sum::<usize>()
                    <= PAGE_BYTES
            );
            for entry in page {
                assert_eq!(entry.inode, cursor as u64 + 1);
                assert_eq!(entry.name, names[cursor]);
                assert_eq!(entry.directory, cursor % 2 == 0);
                cursor += 1;
            }
        }
    }
    assert!(listing.page(u64::MAX).unwrap().is_empty());
    assert_eq!(budget.usage().1, 1);
    budget.release(listing.builder.reserved);
    assert_eq!(budget.usage(), (0, 0));
}

#[test]
fn failed_builds_release_reservations_and_cannot_publish_a_partial_directory() {
    let mut budget = Budget::new();
    let mut listing = Listing::start(&mut budget).unwrap();
    listing.push(&mut budget, 1, true, ".").unwrap();
    assert_eq!(
        listing.push(&mut budget, 2, false, "bad/name"),
        Err(ListingError::Invalid)
    );
    assert!(listing.publish(true).is_err());
    budget.release(listing.builder.reserved);
    assert_eq!(budget.usage(), (0, 0));
    let _occupied = Listing::start(&mut budget).unwrap();
    budget.grow(MAX_BYTES).unwrap();
    let mut other = Listing::start(&mut budget).unwrap();
    assert_eq!(
        other.push(&mut budget, 1, false, "x"),
        Err(ListingError::NoSpace)
    );
    assert!(other.publish(true).is_err());
    budget.release(other.builder.reserved);
    budget.release(MAX_BYTES);
    assert_eq!(budget.usage(), (0, 0));
    // An unusable directory is reported when the listing outgrows its resident
    // allowance, and a small listing keeps working without one.
    let mut missing = Listing::start(&mut budget).unwrap();
    missing.spill = Err(2);
    missing.push(&mut budget, 1, false, "small").unwrap();
    missing.publish(false).unwrap();
    assert_eq!(missing.page(0).unwrap().len(), 1);
    let mut spilling = Listing::start(&mut budget).unwrap();
    spilling.spill = Err(2);
    let mut spill_error = None;
    for index in 0..SPILL_BYTES / HEADER_BYTES as u64 {
        if let Err(error) = spilling.push(&mut budget, index + 1, false, &format!("entry-{index}"))
        {
            spill_error = Some(error);
            break;
        }
    }
    assert_eq!(spill_error, Some(ListingError::System(2)));
    // A builder that failed stays failed and can never publish afterwards.
    assert_eq!(spilling.publish(true), Err(ListingError::Invalid));
    assert_eq!(
        spilling.builder.progress.error,
        Some(ListingError::System(2))
    );
    budget.release(missing.builder.reserved);
    budget.release(spilling.builder.reserved);
    assert_eq!(budget.usage(), (0, 0));
    let mut too_long = Listing::start(&mut budget).unwrap();
    assert_eq!(
        too_long.push(&mut budget, 1, false, &"x".repeat(PAGE_BYTES)),
        Err(ListingError::NameTooLong)
    );
    budget.release(too_long.builder.reserved);
    assert_eq!(budget.usage(), (0, 0));
}

#[test]
fn damaged_index_and_record_fail_without_unbounded_allocation_or_panics() {
    for damage in [0, 1, 2, 3] {
        let mut budget = Budget::new();
        let mut listing = Listing::start(&mut budget).unwrap();
        listing.push(&mut budget, 1, false, "file").unwrap();
        listing.publish(true).unwrap();
        if let Backing::Resident { data, index } = &mut listing.backing {
            match damage {
                0 => index.copy_from_slice(&u64::MAX.to_le_bytes()),
                1 => data[8] = 7,
                2 => data[9..13].copy_from_slice(&u32::MAX.to_le_bytes()),
                _ => data.truncate(2),
            }
        }
        assert!(listing.page(0).is_err());
    }
}

#[test]
fn snapshot_admission_returns_capacity_after_the_last_reader_closes() {
    let mut budget = Budget::new();
    let mut listings = Vec::new();
    for _ in 0..MAX_SNAPSHOTS {
        let mut listing = Listing::start(&mut budget).unwrap();
        listing.push(&mut budget, 1, true, ".").unwrap();
        listing.publish(true).unwrap();
        listings.push(listing);
    }
    assert_eq!(
        Listing::start(&mut budget).err(),
        Some(ListingError::TooMany)
    );
    assert_eq!(budget.usage().1, MAX_SNAPSHOTS);
    let gone = listings.pop().unwrap();
    budget.release(gone.builder.reserved);
    let replacement = Listing::start(&mut budget).unwrap();
    assert_eq!(budget.usage().1, MAX_SNAPSHOTS);
    budget.release(replacement.builder.reserved);
    for listing in listings {
        budget.release(listing.builder.reserved);
    }
    assert_eq!(budget.usage(), (0, 0));
}

#[test]
fn published_prefix_is_readable_but_never_reports_premature_eof() {
    let mut budget = Budget::new();
    let mut listing = Listing::start(&mut budget).unwrap();
    for index in 0..128 {
        listing
            .push(&mut budget, index + 1, false, &format!("file-{index:04}"))
            .unwrap();
    }
    listing.publish(false).unwrap();
    assert_eq!(listing.page(0).unwrap().len(), 128);
    for index in 128..2400 {
        listing
            .push(&mut budget, index + 1, false, &format!("file-{index:04}"))
            .unwrap();
    }
    // Even stored entries are invisible beyond the frontier.
    assert_eq!(listing.page(128).err(), Some(ListingError::WouldBlock));
    assert_eq!(
        ready(listing.builder.progress, false, 128),
        Waiting::Wait
    );
    listing.publish(false).unwrap();
    assert_eq!(
        ready(listing.builder.progress, false, 128),
        Waiting::Ready
    );
    for start in [0, 97, 128, 1023, 2399] {
        let mut cursor = start;
        while cursor < 2400 {
            for entry in listing.page(cursor).unwrap() {
                assert_eq!(entry.inode, cursor + 1);
                assert_eq!(entry.name, format!("file-{cursor:04}"));
                cursor += 1;
            }
        }
    }
    assert_eq!(
        ready(listing.builder.progress, false, 2400),
        Waiting::Wait
    );
    listing.publish(true).unwrap();
    assert_eq!(
        ready(listing.builder.progress, false, 2400),
        Waiting::Ready
    );
    assert!(listing.page(2400).unwrap().is_empty());
}

#[test]
fn late_flush_failure_keeps_the_prefix_and_reports_error_instead_of_eof() {
    let mut budget = Budget::new();
    let mut listing = Listing::start(&mut budget).unwrap();
    listing.push(&mut budget, 1, false, "preserved").unwrap();
    listing.publish(false).unwrap();
    listing.push(&mut budget, 2, false, "unpublished").unwrap();
    listing.builder.fail(ListingError::NoSpace);
    assert_eq!(listing.publish(false), Err(ListingError::Invalid));
    assert_eq!(listing.page(0).unwrap()[0].name, "preserved");
    assert_eq!(listing.page(1).err(), Some(ListingError::NoSpace));
    assert_eq!(
        ready(listing.builder.progress, false, 1),
        Waiting::Failed(ListingError::NoSpace)
    );
}

#[test]
fn delayed_disk_full_at_flush_never_publishes_and_releases_the_reservation() {
    let mut budget = Budget::new();
    for _ in [false, true] {
        let mut listing = Listing::start(&mut budget).unwrap();
        // Accepting an entry succeeds before the disk reports that it is full.
        listing.backing = Backing::Files;
        listing.push(&mut budget, 1, false, "cloud-file").unwrap();
        assert!(budget.usage().0 > 0);
        assert!(matches!(
            listing.builder.store(&mut listing.backing),
            Ok(Storing::Write)
        ));
        listing.builder.fail(ListingError::NoSpace);
        assert_eq!(listing.builder.check_publish(false), Err(ListingError::Invalid));
        assert_eq!(listing.builder.progress.entries, 0);
        assert_eq!(listing.builder.progress.error, Some(ListingError::NoSpace));
        budget.release(listing.builder.reserved);
        assert_eq!(budget.usage(), (0, 0));
    }
}

#[test]
fn abandoned_producer_wakes_readers_and_last_reader_cancels_production() {
    let mut budget = Budget::new();
    let mut listing = Listing::start(&mut budget).unwrap();
    listing.push(&mut budget, 1, false, "preserved").unwrap();
    listing.publish(false).unwrap();
    let progress = listing.builder.progress;
    assert_eq!(ready(progress, false, 1), Waiting::Wait);
    assert_eq!(
        ready(progress, true, 1),
        Waiting::Failed(ListingError::Input)
    );
    assert_eq!(window(progress, true, 1), Err(ListingError::Input));
    assert_eq!(listing.page(0).unwrap()[0].name, "preserved");
    assert_eq!(
        listing.builder.check_publish(true),
        Err(ListingError::Cancelled)
    );
}

#[test]
fn an_ordinary_listing_stays_resident_while_a_large_one_spills() {
    let mut budget = Budget::new();
    let names = |count: u64| {
        (0..count)
            .map(|index| format!("Projektunterlagen {index:04}.txt"))
            .collect::<Vec<_>>()
    };
    let read = |listing: &Listing, count: u64| {
        let mut seen = Vec::new();
        let mut cursor = 0;
        while cursor < count {
            for entry in listing.page(cursor).unwrap() {
                assert_eq!(entry.inode, cursor + 1);
                seen.push(entry.name);
                cursor += 1;
            }
        }
        seen
    };
    let small = names(500);
    let mut resident = Listing::start(&mut budget).unwrap();
    for (index, name) in small.iter().enumerate() {
        resident
            .push(&mut budget, index as u64 + 1, false, name)
            .unwrap();
    }
    resident.publish(true).unwrap();
    assert!(resident.resident());
    assert_eq!(read(&resident, 500), small);
    let resident_bytes = budget.usage().0;
    budget.release(resident.builder.reserved);

    // Past the allowance the same listing spills, with identical contents and
    // identical byte accounting.
    let large = names(4000);
    let mut spilled = Listing::start(&mut budget).unwrap();
    for (index, name) in large.iter().enumerate() {
        spilled
            .push(&mut budget, index as u64 + 1, false, name)
            .unwrap();
    }
    spilled.publish(true).unwrap();
    assert!(!spilled.resident());
    assert_eq!(read(&spilled, 4000), large);
    assert!(budget.usage().0 > resident_bytes);
    budget.release(spilled.builder.reserved);
    assert_eq!(budget.usage(), (0, 0));
}

#[test]
fn a_spill_preserves_the_prefix_an_open_reader_already_publishes() {
    let mut budget = Budget::new();
    let mut listing = Listing::start(&mut budget).unwrap();
    for index in 0..200u64 {
        listing
            .push(&mut budget, index + 1, false, &format!("früh-{index:04}"))
            .unwrap();
    }
    listing.publish(false).unwrap();
    assert!(listing.resident(), "a short prefix starts resident");
    assert_eq!(listing.page(0).unwrap().len(), 200);
    for index in 200..6000u64 {
        listing
            .push(&mut budget, index + 1, false, &format!("früh-{index:04}"))
            .unwrap();
    }
    listing.publish(false).unwrap();
    assert!(!listing.resident(), "the listing must have spilled");
    let mut cursor = 0;
    while cursor < 6000 {
        for entry in listing.page(cursor).unwrap() {
            assert_eq!(entry.inode, cursor + 1);
            assert_eq!(entry.name, format!("früh-{cursor:04}"));
            cursor += 1;
        }
    }
    listing.publish(true).unwrap();
    assert!(listing.page(6000).unwrap().is_empty());
}

#[test]
fn a_record_is_an_inode_a_kind_and_a_counted_name() {
    let mut budget = Budget::new();
    let mut listing = Listing::start(&mut budget).unwrap();
    listing.push(&mut budget, 258, true, "ä").unwrap();
    assert_eq!(
        listing.builder.pending_data,
        vec![2, 1, 0, 0, 0, 0, 0, 0, 1, 2, 0, 0, 0, 0xc3, 0xa4]
    );
    assert_eq!(listing.builder.pending_index, vec![0; 8]);
    let entry = decode(&listing.builder.pending_data).unwrap();
    assert_eq!((entry.inode, entry.directory), (258, true));
    assert_eq!(entry.name, "ä");
    let mut broken = listing.builder.pending_data.clone();
    broken[13] = 0xff;
    assert!(decode(&broken).is_none());
    for (inode, name) in [(0, "x"), (1, ""), (1, "a\0b")] {
        let mut other = Listing::start(&mut budget).unwrap();
        assert_eq!(
            other.push(&mut budget, inode, false, name),
            Err(ListingError::Invalid)
        );
        assert_eq!(other.builder.progress.error, Some(ListingError::Input));
    }
}

#[test]
fn a_short_index_ends_unexpectedly() {
    let progress = Progress {
        entries: 2,
        data_bytes: 40,
        complete: true,
        error: None,
    };
    assert_eq!(
        page(progress, false, &vec![0; 40], &vec![0; 8], 0).err(),
        Some(ListingError::UnexpectedEnd)
    );
}

#[test]
fn the_budget_holds_the_sum_of_the_live_listings() {
    let mut budget = Budget::new();
    let mut one = Listing::start(&mut budget).unwrap();
    let mut two = Listing::start(&mut budget).unwrap();
    for inode in 1..=3 {
        one.push(&mut budget, inode, false, "name").unwrap();
        two.push(&mut budget, inode, true, "a longer name").unwrap();
        let sum = one.builder.reserved + two.builder.reserved;
        assert_eq!(budget.usage(), (sum, 2));
    }
    assert_eq!(
        one.builder.reserved as usize,
        3 * (HEADER_BYTES + 4 + INDEX_BYTES as usize)
    );
    budget.release(one.builder.reserved);
    assert_eq!(budget.usage(), (two.builder.reserved, 1));
}

#[test]
fn a_page_is_the_longest_run_that_fits_and_readers_meet_every_entry() {
    let mut budget = Budget::new();
    let mut listing = Listing::start(&mut budget).unwrap();
    let name = "n".repeat(250);
    let count = 1000u64;
    for inode in 1..=count {
        listing.push(&mut budget, inode, false, &name).unwrap();
    }
    listing.publish(true).unwrap();
    let each = HEADER_BYTES + name.len();
    let fit = (PAGE_BYTES / each).min(PAGE_ENTRIES);
    let mut met = Vec::new();
    loop {
        let page = listing.page(met.len() as u64).unwrap();
        if page.is_empty() {
            break;
        }
        assert_eq!(page.len(), fit.min(count as usize - met.len()));
        met.extend(page.iter().map(|entry| entry.inode));
    }
    assert_eq!(met, (1..=count).collect::<Vec<_>>());
}
