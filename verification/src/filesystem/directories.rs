//! Directory listings with immutable published prefixes: how many may exist, how their
//! entries are written down, when a listing leaves memory, and what one page of it
//! gives back.
use crate::bytes::{low_bytes, number_of, push_number, read_number};
use crate::text::{contains_char, read_text};
use vstd::prelude::*;
use vstd::slice::{slice_subrange, slice_to_vec};
use vstd::utf8::{decode_utf8, encode_utf8, valid_utf8};

verus! {

/// The most bytes of one page.
pub const PAGE_BYTES: usize = 65_536;

/// The most entries of one page.
pub const PAGE_ENTRIES: usize = 1024;

/// What stands before a name: its inode, its kind and its length.
pub const HEADER_BYTES: usize = 13;

/// The bytes of one position in the index.
pub const INDEX_BYTES: u64 = 8;

/// How many listings may exist at once.
pub const MAX_SNAPSHOTS: usize = 256;

/// How many bytes all listings may hold together.
pub const MAX_BYTES: u64 = 268_435_456;

/// A listing stays in memory up to this many bytes.
pub const SPILL_BYTES: u64 = 65_536;

/// Why a listing is not written or not read.
#[derive(Debug, Clone, Copy, PartialEq, Eq, Structural)]
pub enum ListingError {
    /// There are too many listings.
    TooMany,
    /// The listings hold too many bytes.
    NoSpace,
    /// The name does not fit a page.
    NameTooLong,
    /// The listing, or what was to be added, is not valid.
    Invalid,
    /// Nobody reads the listing any more.
    Cancelled,
    /// The entry is not published yet.
    WouldBlock,
    /// The bytes end too early.
    UnexpectedEnd,
    /// The producer stopped or failed without saying why.
    Input,
    /// A failure of the system, by its number.
    System(i32),
}

/// What the listings of a mount hold together.
#[derive(Debug, Clone, Copy, PartialEq, Eq, Structural)]
pub struct Budget {
    pub bytes: u64,
    pub snapshots: usize,
}

impl Budget {
    /// Nothing is held yet.
    pub fn new() -> (budget: Self)
        ensures
            budget == (Budget { bytes: 0, snapshots: 0 }),
    {
        Budget { bytes: 0, snapshots: 0 }
    }

    /// The bytes and the number of listings.
    pub fn usage(&self) -> (usage: (u64, usize))
        ensures
            usage == (self.bytes, self.snapshots),
    {
        (self.bytes, self.snapshots)
    }

    /// Starts a listing, which touches no filesystem.
    pub fn start(&mut self) -> (result: Result<Builder, ListingError>)
        ensures
            match result {
                Ok(builder) => old(self).snapshots < MAX_SNAPSHOTS && *final(self) == (Budget {
                    snapshots: (old(self).snapshots + 1) as usize,
                    ..*old(self)
                }) && builder.wf() && builder.pushed@ == Seq::<EntryView>::empty()
                    && !builder.failed && builder.reserved == 0 && builder.stored_entries == 0
                    && builder.progress == first_progress(),
                Err(error) => old(self).snapshots >= MAX_SNAPSHOTS && error
                    == ListingError::TooMany && *final(self) == *old(self),
            },
    {
        if self.snapshots >= MAX_SNAPSHOTS {
            return Err(ListingError::TooMany);
        }
        self.snapshots = self.snapshots + 1;
        let builder = Builder {
            pending_data: Vec::new(),
            pending_index: Vec::new(),
            stored_data: 0,
            stored_entries: 0,
            reserved: 0,
            entries: 0,
            data_bytes: 0,
            failed: false,
            progress: Progress { entries: 0, data_bytes: 0, complete: false, error: None },
            pushed: Ghost(Seq::empty()),
        };
        proof {
            assert(data_of(Seq::<EntryView>::empty()) =~= Seq::<u8>::empty());
            assert(index_of(Seq::<EntryView>::empty()) =~= Seq::<u8>::empty());
            assert(builder.pending_data@ =~= data_of(builder.pushed@).skip(0));
            assert(builder.pending_index@ =~= index_of(builder.pushed@).skip(0));
        }
        Ok(builder)
    }

    /// Reserves bytes for a listing.
    pub fn grow(&mut self, bytes: u64) -> (result: Result<(), ListingError>)
        ensures
            match result {
                Ok(_) => old(self).bytes + bytes <= MAX_BYTES && *final(self) == (Budget {
                    bytes: (old(self).bytes + bytes) as u64,
                    ..*old(self)
                }),
                Err(error) => old(self).bytes + bytes > MAX_BYTES && error
                    == ListingError::NoSpace && *final(self) == *old(self),
            },
    {
        match self.bytes.checked_add(bytes) {
            Some(next) => {
                if next > MAX_BYTES {
                    return Err(ListingError::NoSpace);
                }
                self.bytes = next;
                Ok(())
            },
            None => Err(ListingError::NoSpace),
        }
    }

    /// Gives back what a listing held, once its last reader and its producer are gone.
    pub fn release(&mut self, reserved: u64)
        requires
            reserved <= old(self).bytes,
            old(self).snapshots > 0,
        ensures
            *final(self) == (Budget {
                bytes: (old(self).bytes - reserved) as u64,
                snapshots: (old(self).snapshots - 1) as usize,
            }),
    {
        self.bytes = self.bytes - reserved;
        self.snapshots = self.snapshots - 1;
    }
}

/// One entry of a listing.
#[derive(Debug)]
pub struct Entry {
    pub inode: u64,
    pub directory: bool,
    pub name: String,
}

/// The content of an entry.
pub struct EntryView {
    pub inode: u64,
    pub directory: bool,
    pub name: Seq<char>,
}

impl View for Entry {
    type V = EntryView;

    open spec fn view(&self) -> EntryView {
        EntryView { inode: self.inode, directory: self.directory, name: self.name@ }
    }
}

/// The contents of some entries.
pub open spec fn entry_views(entries: Seq<Entry>) -> Seq<EntryView> {
    Seq::new(entries.len(), |i: int| entries[i]@)
}

/// Why an entry is not accepted.
pub open spec fn entry_refusal(entry: EntryView) -> Option<ListingError> {
    if encode_utf8(entry.name).len() > PAGE_BYTES - HEADER_BYTES {
        Some(ListingError::NameTooLong)
    } else if entry.inode == 0 || entry.name.len() == 0 || entry.name.contains('/')
        || entry.name.contains('\0') {
        Some(ListingError::Invalid)
    } else {
        None
    }
}

/// How an entry is written down.
pub open spec fn record(entry: EntryView) -> Seq<u8> {
    low_bytes(entry.inode as nat, 8).push(
        if entry.directory {
            1u8
        } else {
            0u8
        },
    ) + low_bytes(encode_utf8(entry.name).len(), 4) + encode_utf8(entry.name)
}

/// The records of some entries, one behind the other.
pub open spec fn data_of(entries: Seq<EntryView>) -> Seq<u8>
    decreases entries.len(),
{
    if entries.len() == 0 {
        Seq::empty()
    } else {
        data_of(entries.drop_last()) + record(entries.last())
    }
}

/// Where each record starts.
pub open spec fn index_of(entries: Seq<EntryView>) -> Seq<u8>
    decreases entries.len(),
{
    if entries.len() == 0 {
        Seq::empty()
    } else {
        index_of(entries.drop_last()) + low_bytes(data_of(entries.drop_last()).len(), 8)
    }
}

/// How far a listing is published.
#[derive(Debug, Clone, Copy, PartialEq, Eq, Structural)]
pub struct Progress {
    pub entries: u64,
    pub data_bytes: u64,
    pub complete: bool,
    pub error: Option<ListingError>,
}

/// Nothing is published.
pub open spec fn first_progress() -> Progress {
    Progress { entries: 0, data_bytes: 0, complete: false, error: None }
}

/// Where the bytes of a listing live. Once they are in files, only their owner reads
/// and writes them.
#[derive(Debug)]
pub enum Backing {
    Resident { data: Vec<u8>, index: Vec<u8> },
    Files,
}

/// What has to happen for the accepted bytes to be stored.
#[derive(Debug, Clone, Copy, PartialEq, Eq, Structural)]
pub enum Storing {
    /// Nothing, or it has happened.
    Done,
    /// The bytes in memory go to new files, and the accepted ones behind them.
    Spill,
    /// The accepted bytes are written to the files.
    Write,
}

/// A listing that is being written.
pub struct Builder {
    pub pending_data: Vec<u8>,
    pub pending_index: Vec<u8>,
    pub stored_data: u64,
    pub stored_entries: u64,
    pub reserved: u64,
    pub entries: u64,
    pub data_bytes: u64,
    pub failed: bool,
    pub progress: Progress,
    pub pushed: Ghost<Seq<EntryView>>,
}

/// What readers are told of a failure.
pub open spec fn reported(error: ListingError) -> ListingError {
    if error == ListingError::Invalid {
        ListingError::Input
    } else {
        error
    }
}

/// All of these entries are acceptable.
pub open spec fn acceptable(entries: Seq<EntryView>) -> bool {
    forall|i: int| 0 <= i < entries.len() ==> entry_refusal(#[trigger] entries[i]) is None
}

impl Builder {
    /// The pending bytes are the last ones of what was pushed, and the reservation
    /// covers all of it.
    pub open spec fn wf(&self) -> bool {
        let data = data_of(self.pushed@);
        let index = index_of(self.pushed@);
        &&& self.entries == self.pushed@.len()
        &&& self.data_bytes == data.len()
        &&& index.len() == 8 * self.pushed@.len()
        &&& self.stored_data <= data.len()
        &&& self.stored_entries <= self.entries
        &&& self.pending_data@ == data.skip(self.stored_data as int)
        &&& self.pending_index@ == index.skip(8 * self.stored_entries)
        &&& self.reserved == data.len() + index.len()
        &&& self.reserved <= MAX_BYTES
        &&& acceptable(self.pushed@)
    }

    /// The bytes in memory are the first ones of what was pushed.
    pub open spec fn backed_by(&self, backing: &Backing) -> bool {
        match backing {
            Backing::Resident { data, index } => {
                &&& data@ == data_of(self.pushed@).take(self.stored_data as int)
                &&& index@ == index_of(self.pushed@).take(8 * self.stored_entries)
            },
            Backing::Files => true,
        }
    }

    /// The listing has failed, and readers learn why.
    pub fn fail(&mut self, error: ListingError)
        requires
            old(self).wf(),
        ensures
            final(self).wf(),
            failed_with(*old(self), *final(self), error),
    {
        self.failed = true;
        let known = if error == ListingError::Invalid {
            ListingError::Input
        } else {
            error
        };
        self.progress.error = Some(known);
    }

    /// Adds an entry. The answer says whether the accepted bytes must be stored now.
    /// The budget is the one that the listing was started from, so it counts what the
    /// listing has reserved.
    pub fn push(&mut self, budget: &mut Budget, inode: u64, directory: bool, name: &str) -> (result:
        Result<bool, ListingError>)
        requires
            old(self).wf(),
            old(self).reserved <= old(budget).bytes,
        ensures
            final(self).wf(),
            final(self).reserved <= final(budget).bytes,
            final(self).stored_data == old(self).stored_data,
            final(self).stored_entries == old(self).stored_entries,
            ({
                let entry = EntryView { inode, directory, name: name@ };
                let cost = record(entry).len() + INDEX_BYTES;
                if old(self).failed {
                    result == Err::<bool, ListingError>(ListingError::Invalid) && *final(self)
                        == *old(self) && *final(budget) == *old(budget)
                } else if entry_refusal(entry) is Some {
                    result == Err::<bool, ListingError>(entry_refusal(entry)->0) && failed_with(
                        *old(self),
                        *final(self),
                        entry_refusal(entry)->0,
                    ) && *final(budget) == *old(budget)
                } else if old(budget).bytes + cost > MAX_BYTES {
                    result == Err::<bool, ListingError>(ListingError::NoSpace) && failed_with(
                        *old(self),
                        *final(self),
                        ListingError::NoSpace,
                    ) && *final(budget) == *old(budget)
                } else {
                    result == Ok::<bool, ListingError>(
                        final(self).pending_data@.len() >= PAGE_BYTES,
                    ) && !final(self).failed && final(self).progress == old(self).progress
                        && final(self).pushed@ == old(self).pushed@.push(entry)
                        && *final(budget) == (Budget {
                        bytes: (old(budget).bytes + cost) as u64,
                        ..*old(budget)
                    })
                }
            }),
    {
        if self.failed {
            return Err(ListingError::Invalid);
        }
        let ghost entry = EntryView { inode, directory, name: name@ };
        let text = name.as_bytes();
        if text.len() > PAGE_BYTES - HEADER_BYTES {
            self.fail(ListingError::NameTooLong);
            return Err(ListingError::NameTooLong);
        }
        if inode == 0 || name.is_empty() || contains_char(name, '/') || contains_char(name, '\0') {
            self.fail(ListingError::Invalid);
            return Err(ListingError::Invalid);
        }
        proof {
            crate::bytes::lemma_limits();
            crate::bytes::numbers_come_back(inode as nat, 8);
            crate::bytes::numbers_come_back(text@.len(), 4);
            crate::bytes::numbers_come_back(self.data_bytes as nat, 8);
            assert(record(entry).len() == HEADER_BYTES + text@.len());
        }
        let bytes: u64 = HEADER_BYTES as u64 + text.len() as u64;
        if let Err(error) = budget.grow(bytes + INDEX_BYTES) {
            self.fail(error);
            return Err(error);
        }
        let ghost before = *self;
        push_number(&mut self.pending_index, self.data_bytes, 8);
        push_number(&mut self.pending_data, inode, 8);
        self.pending_data.push(
            if directory {
                1
            } else {
                0
            },
        );
        push_number(&mut self.pending_data, text.len() as u64, 4);
        let mut tail = slice_to_vec(text);
        self.pending_data.append(&mut tail);
        self.entries = self.entries + 1;
        self.data_bytes = self.data_bytes + bytes;
        self.reserved = self.reserved + (bytes + INDEX_BYTES);
        self.pushed = Ghost(self.pushed@.push(entry));
        proof {
            assert(self.pushed@.drop_last() =~= before.pushed@);
            assert(self.pushed@.last() == entry);
            assert(self.pending_data@ =~= before.pending_data@ + record(entry));
            assert(self.pending_data@ =~= data_of(self.pushed@).skip(self.stored_data as int));
            assert(self.pending_index@ =~= index_of(self.pushed@).skip(8 * self.stored_entries));
            assert forall|i: int| 0 <= i < self.pushed@.len() implies entry_refusal(
                #[trigger] self.pushed@[i],
            ) is None by {
                if i < before.pushed@.len() {
                    assert(self.pushed@[i] == before.pushed@[i]);
                }
            }
        }
        Ok(self.pending_data.len() >= PAGE_BYTES)
    }

    /// Moves the accepted bytes into memory, or says what has to be written.
    pub fn store(&mut self, backing: &mut Backing) -> (result: Result<Storing, ListingError>)
        requires
            old(self).wf(),
        ensures
            final(self).wf(),
            final(self).pushed == old(self).pushed,
            final(self).progress == old(self).progress,
            final(self).failed == old(self).failed,
            final(self).reserved == old(self).reserved,
            old(self).backed_by(old(backing)) ==> final(self).backed_by(final(backing)),
            ({
                let pending = old(self).pending_data@.len() + old(self).pending_index@.len();
                if pending == 0 {
                    result == Ok::<Storing, ListingError>(Storing::Done) && *final(self) == *old(self) && *final(backing) == *old(backing)
                } else {
                    match *old(backing) {
                        Backing::Files => result == Ok::<Storing, ListingError>(Storing::Write)
                            && *final(self) == *old(self) && *final(backing) == *old(backing),
                        Backing::Resident { data, index } => if data@.len() + index@.len() + pending
                            > SPILL_BYTES {
                            result == Ok::<Storing, ListingError>(Storing::Spill) && *final(self)
                                == *old(self) && *final(backing) == *old(backing)
                        } else if data@.len() != old(self).stored_data || index@.len() != 8
                            * old(self).stored_entries {
                            result == Err::<Storing, ListingError>(ListingError::Invalid)
                                && *final(self) == *old(self) && *final(backing) == *old(backing)
                        } else {
                            result == Ok::<Storing, ListingError>(Storing::Done) && final(self).stored_entries == old(self).entries && holds(
                                *final(backing),
                                data@ + old(self).pending_data@,
                                index@ + old(self).pending_index@,
                            )
                        },
                    }
                }
            }),
    {
        if self.pending_data.len() == 0 && self.pending_index.len() == 0 {
            return Ok(Storing::Done);
        }
        let ghost before = *self;
        let position: u64 = self.stored_data;
        let index_position: u64 = self.stored_entries * INDEX_BYTES;
        match backing {
            Backing::Files => Ok(Storing::Write),
            Backing::Resident { data, index } => {
                let held: u128 = data.len() as u128 + index.len() as u128;
                let pending: u128 = self.pending_data.len() as u128
                    + self.pending_index.len() as u128;
                if held + pending > SPILL_BYTES as u128 {
                    return Ok(Storing::Spill);
                }
                if position != data.len() as u64 || index_position != index.len() as u64 {
                    return Err(ListingError::Invalid);
                }
                let ghost old_data = data@;
                let ghost old_index = index@;
                data.append(&mut self.pending_data);
                index.append(&mut self.pending_index);
                self.stored_data = self.data_bytes;
                self.stored_entries = self.entries;
                proof {
                    let all = data_of(self.pushed@);
                    let places = index_of(self.pushed@);
                    assert(self.pending_data@ =~= all.skip(self.stored_data as int));
                    assert(self.pending_index@ =~= places.skip(8 * self.stored_entries));
                    if old_data == all.take(before.stored_data as int) && old_index
                        == places.take(8 * before.stored_entries) {
                        assert(data@ =~= all.take(self.stored_data as int));
                        assert(index@ =~= places.take(8 * self.stored_entries));
                    }
                }
                Ok(Storing::Done)
            },
        }
    }

    /// The accepted bytes are in the files now.
    pub fn written(&mut self)
        requires
            old(self).wf(),
        ensures
            final(self).wf(),
            final(self).pending_data@.len() == 0,
            final(self).pending_index@.len() == 0,
            final(self).stored_data == old(self).data_bytes,
            final(self).stored_entries == old(self).entries,
            final(self).pushed == old(self).pushed,
            final(self).progress == old(self).progress,
            final(self).failed == old(self).failed,
            final(self).reserved == old(self).reserved,
    {
        self.pending_data = Vec::new();
        self.pending_index = Vec::new();
        self.stored_data = self.data_bytes;
        self.stored_entries = self.entries;
        proof {
            assert(self.pending_data@ =~= data_of(self.pushed@).skip(self.stored_data as int));
            assert(self.pending_index@ =~= index_of(self.pushed@).skip(8 * self.stored_entries));
        }
    }

    /// Whether publishing may go on. A listing that failed never publishes again.
    pub fn check_publish(&self, cancelled: bool) -> (result: Result<(), ListingError>)
        ensures
            result == (if self.failed {
                Err::<(), ListingError>(ListingError::Invalid)
            } else if cancelled {
                Err(ListingError::Cancelled)
            } else {
                Ok(())
            }),
    {
        if self.failed {
            return Err(ListingError::Invalid);
        }
        if cancelled {
            return Err(ListingError::Cancelled);
        }
        Ok(())
    }

    /// Advances what readers see to everything pushed, once all of it is stored.
    pub fn advance(&mut self, complete: bool)
        requires
            old(self).wf(),
            !old(self).failed,
            old(self).stored_entries == old(self).entries,
        ensures
            final(self).wf(),
            *final(self) == (Builder { progress: final(self).progress, ..*old(self) }),
            final(self).progress == (Progress {
                entries: old(self).pushed@.len() as u64,
                data_bytes: data_of(old(self).pushed@).len() as u64,
                complete,
                error: None,
            }),
    {
        self.progress = Progress {
            entries: self.entries,
            data_bytes: self.data_bytes,
            complete,
            error: None,
        };
    }
}

/// The builder differs from an earlier one only in that it failed.
pub open spec fn failed_with(before: Builder, after: Builder, error: ListingError) -> bool {
    after == (Builder {
        failed: true,
        progress: Progress { error: Some(reported(error)), ..before.progress },
        ..before
    })
}

/// The listing is in memory and has these bytes.
pub open spec fn holds(backing: Backing, all: Seq<u8>, places: Seq<u8>) -> bool {
    match backing {
        Backing::Resident { data, index } => data@ == all && index@ == places,
        Backing::Files => false,
    }
}

/// Whether a reader at some entry has to wait.
#[derive(Debug, Clone, Copy, PartialEq, Eq, Structural)]
pub enum Waiting {
    Ready,
    Failed(ListingError),
    Wait,
}

/// Whether a reader at this entry has to wait. `closed` says that the producer is
/// gone.
pub fn ready(progress: Progress, closed: bool, offset: u64) -> (waiting: Waiting)
    ensures
        waiting == (if offset < progress.entries {
            Waiting::Ready
        } else if progress.error is Some {
            Waiting::Failed(progress.error->0)
        } else if progress.complete {
            Waiting::Ready
        } else if closed {
            Waiting::Failed(ListingError::Input)
        } else {
            Waiting::Wait
        }),
{
    if offset < progress.entries {
        return Waiting::Ready;
    }
    if let Some(error) = progress.error {
        return Waiting::Failed(error);
    }
    if progress.complete {
        return Waiting::Ready;
    }
    if closed {
        return Waiting::Failed(ListingError::Input);
    }
    Waiting::Wait
}

/// The part of the index that a page needs.
#[derive(Debug, Clone, Copy, PartialEq, Eq, Structural)]
pub struct Window {
    pub count: usize,
    pub followed: bool,
    pub at: u64,
    pub length: usize,
}

/// The part of the index that a page needs; nothing behind the last entry of a
/// complete listing.
pub open spec fn window_of(progress: Progress, closed: bool, offset: u64) -> Result<
    Option<Window>,
    ListingError,
> {
    if offset >= progress.entries {
        match progress.error {
            Some(error) => Err(error),
            None => if progress.complete {
                Ok(None)
            } else if closed {
                Err(ListingError::Input)
            } else {
                Err(ListingError::WouldBlock)
            },
        }
    } else {
        let left = progress.entries - offset;
        let count = if left < PAGE_ENTRIES {
            left
        } else {
            PAGE_ENTRIES as int
        };
        let followed = offset + count < progress.entries;
        let rows = if followed {
            count + 1
        } else {
            count
        };
        Ok(
            Some(
                Window {
                    count: count as usize,
                    followed,
                    at: (offset * INDEX_BYTES) as u64,
                    length: (rows * 8) as usize,
                },
            ),
        )
    }
}

/// The part of the index that a page needs.
pub fn window(progress: Progress, closed: bool, offset: u64) -> (result: Result<
    Option<Window>,
    ListingError,
>)
    requires
        progress.entries <= MAX_BYTES,
    ensures
        result == window_of(progress, closed, offset),
{
    if offset >= progress.entries {
        return match progress.error {
            Some(error) => Err(error),
            None => if progress.complete {
                Ok(None)
            } else if closed {
                Err(ListingError::Input)
            } else {
                Err(ListingError::WouldBlock)
            },
        };
    }
    let left: u64 = progress.entries - offset;
    let count: usize = if left < PAGE_ENTRIES as u64 {
        left as usize
    } else {
        PAGE_ENTRIES
    };
    let followed = offset + (count as u64) < progress.entries;
    let rows: usize = if followed {
        count + 1
    } else {
        count
    };
    Ok(Some(Window { count, followed, at: offset * INDEX_BYTES, length: rows * 8 }))
}

/// The positions that a part of the index gives, with the end of the data behind them
/// where no other entry follows.
pub open spec fn positions_of(progress: Progress, window: Window, index: Seq<u8>) -> Seq<u64> {
    let rows = Seq::new(
        index.len() / 8,
        |i: int| number_of(index.subrange(8 * i, 8 * i + 8)) as u64,
    );
    if window.followed {
        rows
    } else {
        rows.push(progress.data_bytes)
    }
}

/// The record between two positions can be one.
pub open spec fn plausible(positions: Seq<u64>, i: int, data_bytes: u64) -> bool {
    &&& positions[i] <= positions[i + 1]
    &&& HEADER_BYTES <= positions[i + 1] - positions[i] <= PAGE_BYTES
    &&& positions[i + 1] <= data_bytes
}

/// How many records, from the `i`th on, go on the page.
pub open spec fn page_count(positions: Seq<u64>, i: int, data_bytes: u64) -> Result<
    int,
    ListingError,
>
    decreases positions.len() - i,
{
    if i + 1 >= positions.len() {
        Ok(i)
    } else if !plausible(positions, i, data_bytes) {
        Err(ListingError::Invalid)
    } else if positions[i + 1] - positions[0] > PAGE_BYTES {
        Ok(i)
    } else {
        page_count(positions, i + 1, data_bytes)
    }
}

/// Where the records of a page lie.
#[derive(Debug)]
pub struct Span {
    pub positions: Vec<u64>,
    pub take: usize,
}

impl Span {
    /// The records lie one behind the other.
    pub open spec fn wf(&self) -> bool {
        &&& 0 < self.take < self.positions@.len()
        &&& forall|i: int|
            0 <= i < self.take ==> HEADER_BYTES <= (#[trigger] self.positions@[i + 1])
                - self.positions@[i] <= PAGE_BYTES
        &&& forall|i: int|
            0 <= i <= self.take ==> self.positions@[0] <= #[trigger] self.positions@[i]
                <= self.positions@[self.take as int]
        &&& self.positions@[self.take as int] - self.positions@[0] <= PAGE_BYTES
    }

    /// Where the data of the page starts.
    pub fn start(&self) -> (start: u64)
        requires
            self.wf(),
        ensures
            start == self.positions@[0],
    {
        self.positions[0]
    }

    /// How many bytes the page has.
    pub fn length(&self) -> (length: usize)
        requires
            self.wf(),
        ensures
            length == self.positions@[self.take as int] - self.positions@[0],
    {
        (self.positions[self.take] - self.positions[0]) as usize
    }
}

proof fn lemma_page_count(positions: Seq<u64>, i: int, data_bytes: u64)
    requires
        0 <= i,
    ensures
        match page_count(positions, i, data_bytes) {
            Ok(take) => i <= take && (i < positions.len() ==> take < positions.len()),
            Err(error) => error == ListingError::Invalid,
        },
    decreases positions.len() - i,
{
    if i + 1 < positions.len() && plausible(positions, i, data_bytes) && positions[i + 1]
        - positions[0] <= PAGE_BYTES {
        lemma_page_count(positions, i + 1, data_bytes);
    }
}

/// Finds where the records of a page lie.
pub fn span(progress: Progress, window: Window, index: &[u8]) -> (result: Result<
    Span,
    ListingError,
>)
    requires
        index@.len() == window.length,
        window.length % 8 == 0,
        window.length <= 8 * (PAGE_ENTRIES + 1),
    ensures
        ({
            let positions = positions_of(progress, window, index@);
            match page_count(positions, 0, progress.data_bytes) {
                Ok(take) => if take <= 0 {
                    result == Err::<Span, ListingError>(ListingError::Invalid)
                } else {
                    result is Ok && result->Ok_0.wf() && result->Ok_0.positions@ == positions
                        && result->Ok_0.take == take
                },
                Err(error) => result == Err::<Span, ListingError>(error),
            }
        }),
{
    let mut positions: Vec<u64> = Vec::new();
    let rows: usize = index.len() / 8;
    let mut i: usize = 0;
    while i < rows
        invariant
            i <= rows,
            rows == index@.len() / 8,
            8 * rows <= index@.len(),
            rows <= PAGE_ENTRIES + 1,
            positions@.len() == i,
            forall|j: int|
                0 <= j < i ==> #[trigger] positions@[j] == number_of(
                    index@.subrange(8 * j, 8 * j + 8),
                ) as u64,
        decreases rows - i,
    {
        positions.push(read_number(index, 8 * i, 8));
        i = i + 1;
    }
    if !window.followed {
        positions.push(progress.data_bytes);
    }
    proof {
        assert(positions@ =~= positions_of(progress, window, index@));
    }
    let total = positions.len();
    let mut take: usize = 0;
    let mut going = total > 1;
    proof {
        lemma_page_count(positions@, 0, progress.data_bytes);
    }
    while going
        invariant
            total == positions@.len(),
            positions@ == positions_of(progress, window, index@),
            going ==> take + 1 < total,
            take < total || (take == 0 && total == 0),
            take <= PAGE_ENTRIES + 2,
            total <= PAGE_ENTRIES + 2,
            page_count(positions@, 0, progress.data_bytes) == (if going {
                page_count(positions@, take as int, progress.data_bytes)
            } else {
                Ok::<int, ListingError>(take as int)
            }),
            forall|j: int|
                0 <= j < take ==> HEADER_BYTES <= (#[trigger] positions@[j + 1]) - positions@[j]
                    <= PAGE_BYTES,
            take < total ==> forall|j: int|
                0 <= j <= take ==> positions@[0] <= #[trigger] positions@[j]
                    <= positions@[take as int],
            take < total ==> positions@[take as int] - positions@[0] <= PAGE_BYTES,
        decreases total - take, going as int,
    {
        let first = positions[0];
        let low = positions[take];
        let high = positions[take + 1];
        if high < low || high - low < HEADER_BYTES as u64 || high - low > PAGE_BYTES as u64 || high
            > progress.data_bytes {
            proof {
                assert(!plausible(positions@, take as int, progress.data_bytes));
            }
            return Err(ListingError::Invalid);
        }
        if high - first > PAGE_BYTES as u64 {
            going = false;
        } else {
            take = take + 1;
            going = take < total - 1;
        }
    }
    if take == 0 {
        return Err(ListingError::Invalid);
    }
    Ok(Span { positions, take })
}

/// The entry that a record stands for.
pub open spec fn decoded(bytes: Seq<u8>) -> Option<EntryView> {
    let inode = number_of(bytes.subrange(0, 8));
    let size = number_of(bytes.subrange(9, 13));
    let text = bytes.subrange(13, bytes.len() as int);
    if bytes[8] > 1 || !valid_utf8(text) {
        None
    } else {
        let name = decode_utf8(text);
        if size != text.len() || inode == 0 || name.len() == 0 || name.contains('/')
            || name.contains('\0') {
            None
        } else {
            Some(EntryView { inode: inode as u64, directory: bytes[8] == 1, name })
        }
    }
}

/// The entry that a record stands for.
pub fn decode(bytes: &[u8]) -> (entry: Option<Entry>)
    requires
        bytes@.len() >= HEADER_BYTES,
        bytes@.len() <= PAGE_BYTES,
    ensures
        match entry {
            Some(entry) => decoded(bytes@) == Some(entry@),
            None => decoded(bytes@) is None,
        },
{
    let inode = read_number(bytes, 0, 8);
    let kind = bytes[8];
    if kind > 1 {
        return None;
    }
    let size = read_number(bytes, 9, 4);
    let text = slice_subrange(bytes, 13, bytes.len());
    match read_text(text) {
        Some(name) => {
            if size != text.len() as u64 || inode == 0 || name.as_str().is_empty() || contains_char(
                name.as_str(),
                '/',
            ) || contains_char(name.as_str(), '\0') {
                return None;
            }
            Some(Entry { inode, directory: kind == 1, name })
        },
        None => None,
    }
}

/// The record of a page at this place.
pub open spec fn record_at(positions: Seq<u64>, bytes: Seq<u8>, i: int) -> Seq<u8> {
    bytes.subrange(positions[i] - positions[0], positions[i + 1] - positions[0])
}

/// The entries that the bytes of a page stand for.
pub open spec fn page_entries(positions: Seq<u64>, take: int, bytes: Seq<u8>) -> Result<
    Seq<EntryView>,
    ListingError,
> {
    if forall|i: int| 0 <= i < take ==> decoded(#[trigger] record_at(positions, bytes, i)) is Some {
        Ok(Seq::new(take as nat, |i: int| decoded(record_at(positions, bytes, i))->0))
    } else {
        Err(ListingError::Invalid)
    }
}

/// The result is these entries, or this error.
pub open spec fn gives(
    result: Result<Vec<Entry>, ListingError>,
    expected: Result<Seq<EntryView>, ListingError>,
) -> bool {
    match (result, expected) {
        (Ok(entries), Ok(views)) => entry_views(entries@) == views,
        (Err(a), Err(b)) => a == b,
        _ => false,
    }
}

/// Reads the entries of a page.
pub fn read_entries(span: &Span, bytes: &[u8]) -> (result: Result<Vec<Entry>, ListingError>)
    requires
        span.wf(),
        bytes@.len() == span.positions@[span.take as int] - span.positions@[0],
    ensures
        gives(result, page_entries(span.positions@, span.take as int, bytes@)),
{
    let start = span.positions[0];
    let mut entries: Vec<Entry> = Vec::new();
    let mut i: usize = 0;
    while i < span.take
        invariant
            span.wf(),
            start == span.positions@[0],
            bytes@.len() == span.positions@[span.take as int] - span.positions@[0],
            i <= span.take,
            entries@.len() == i,
            forall|j: int|
                0 <= j < i ==> decoded(#[trigger] record_at(span.positions@, bytes@, j)) == Some(
                    entries@[j]@,
                ),
        decreases span.take - i,
    {
        proof {
            assert(span.positions@[i + 1] - span.positions@[i as int] >= HEADER_BYTES);
        }
        let from: usize = (span.positions[i] - start) as usize;
        let to: usize = (span.positions[i + 1] - start) as usize;
        let bytes_of = slice_subrange(bytes, from, to);
        assert(bytes_of@ == record_at(span.positions@, bytes@, i as int));
        match decode(bytes_of) {
            Some(entry) => {
                entries.push(entry);
            },
            None => {
                return Err(ListingError::Invalid);
            },
        }
        i = i + 1;
    }
    proof {
        let views = Seq::new(
            span.take as nat,
            |i: int| decoded(record_at(span.positions@, bytes@, i))->0,
        );
        assert(entry_views(entries@) =~= views);
    }
    Ok(entries)
}

/// Reads part of what is in memory.
pub fn read_at(source: &Vec<u8>, at: u64, length: usize) -> (result: Result<Vec<u8>, ListingError>)
    ensures
        result is Ok == (at + length <= source@.len()),
        match result {
            Ok(bytes) => bytes@ == source@.subrange(at as int, at + length),
            Err(error) => error == ListingError::UnexpectedEnd,
        },
{
    let total = source.len();
    if at > total as u64 {
        return Err(ListingError::UnexpectedEnd);
    }
    let from: usize = at as usize;
    if length > total - from {
        return Err(ListingError::UnexpectedEnd);
    }
    Ok(slice_to_vec(slice_subrange(source.as_slice(), from, from + length)))
}

/// One page of a listing with these bytes.
pub open spec fn page_of(
    progress: Progress,
    closed: bool,
    data: Seq<u8>,
    index: Seq<u8>,
    offset: u64,
) -> Result<Seq<EntryView>, ListingError> {
    match window_of(progress, closed, offset) {
        Err(error) => Err(error),
        Ok(None) => Ok(Seq::empty()),
        Ok(Some(window)) => if window.at + window.length > index.len() {
            Err(ListingError::UnexpectedEnd)
        } else {
            let rows = index.subrange(window.at as int, window.at + window.length);
            let positions = positions_of(progress, window, rows);
            match page_count(positions, 0, progress.data_bytes) {
                Err(error) => Err(error),
                Ok(take) => if take <= 0 {
                    Err(ListingError::Invalid)
                } else if positions[take] > data.len() {
                    Err(ListingError::UnexpectedEnd)
                } else {
                    page_entries(
                        positions,
                        take,
                        data.subrange(positions[0] as int, positions[take] as int),
                    )
                },
            }
        },
    }
}

/// One page of a listing that is in memory. Positions are counted in entries, so that
/// readers share no cursor.
pub fn page(progress: Progress, closed: bool, data: &Vec<u8>, index: &Vec<u8>, offset: u64) -> (result:
    Result<Vec<Entry>, ListingError>)
    requires
        progress.entries <= MAX_BYTES,
    ensures
        gives(result, page_of(progress, closed, data@, index@, offset)),
{
    match window(progress, closed, offset) {
        Err(error) => Err(error),
        Ok(None) => {
            let none: Vec<Entry> = Vec::new();
            proof {
                assert(entry_views(none@) =~= Seq::<EntryView>::empty());
            }
            Ok(none)
        },
        Ok(Some(found)) => {
            let rows = match read_at(index, found.at, found.length) {
                Ok(rows) => rows,
                Err(error) => {
                    return Err(error);
                },
            };
            let place = match span(progress, found, rows.as_slice()) {
                Ok(place) => place,
                Err(error) => {
                    return Err(error);
                },
            };
            let bytes = match read_at(data, place.start(), place.length()) {
                Ok(bytes) => bytes,
                Err(error) => {
                    return Err(error);
                },
            };
            read_entries(&place, bytes.as_slice())
        },
    }
}

/// A record is read back as the entry it was written for.
pub proof fn records_come_back(entry: EntryView)
    requires
        entry_refusal(entry) is None,
    ensures
        decoded(record(entry)) == Some(entry),
        record(entry).len() == HEADER_BYTES + encode_utf8(entry.name).len(),
{
    let text = encode_utf8(entry.name);
    let bytes = record(entry);
    crate::bytes::lemma_limits();
    crate::bytes::numbers_come_back(entry.inode as nat, 8);
    crate::bytes::numbers_come_back(text.len(), 4);
    assert(bytes.subrange(0, 8) =~= low_bytes(entry.inode as nat, 8));
    assert(bytes.subrange(9, 13) =~= low_bytes(text.len(), 4));
    assert(bytes.subrange(13, bytes.len() as int) =~= text);
    vstd::utf8::encode_utf8_valid_utf8(entry.name);
    vstd::utf8::encode_utf8_decode_utf8(entry.name);
}

/// Where the `k`th record starts.
pub open spec fn start_of(entries: Seq<EntryView>, k: int) -> int {
    data_of(entries.take(k)).len() as int
}

proof fn lemma_layout(entries: Seq<EntryView>, k: int)
    requires
        acceptable(entries),
        0 <= k < entries.len(),
        data_of(entries).len() <= u64::MAX,
    ensures
        0 <= start_of(entries, k) < start_of(entries, k + 1) <= data_of(entries).len(),
        start_of(entries, k + 1) == start_of(entries, k) + record(entries[k]).len(),
        data_of(entries).subrange(start_of(entries, k), start_of(entries, k + 1)) == record(
            entries[k],
        ),
        index_of(entries).len() == 8 * entries.len(),
        number_of(index_of(entries).subrange(8 * k, 8 * k + 8)) == start_of(entries, k),
    decreases entries.len(),
{
    let front = entries.drop_last();
    let last = entries.last();
    let data = data_of(front);
    assert(entry_refusal(entries[entries.len() - 1]) is None);
    records_come_back(last);
    crate::bytes::lemma_limits();
    crate::bytes::numbers_come_back(data.len(), 8);
    assert(acceptable(front)) by {
        assert forall|i: int| 0 <= i < front.len() implies entry_refusal(
            #[trigger] front[i],
        ) is None by {
            assert(front[i] == entries[i]);
        }
    }
    lemma_index_length(front);
    if k == front.len() {
        assert(entries.take(k) =~= front);
        assert(entries.take(k + 1) =~= entries);
        assert(data_of(entries).subrange(data.len() as int, data_of(entries).len() as int)
            =~= record(last));
        assert(index_of(entries).subrange(8 * k, 8 * k + 8) =~= low_bytes(data.len(), 8));
    } else {
        lemma_layout(front, k);
        assert(front.take(k) =~= entries.take(k));
        assert(front.take(k + 1) =~= entries.take(k + 1));
        assert(data_of(entries).subrange(start_of(entries, k), start_of(entries, k + 1))
            =~= data.subrange(start_of(front, k), start_of(front, k + 1)));
        assert(index_of(entries).subrange(8 * k, 8 * k + 8) =~= index_of(front).subrange(
            8 * k,
            8 * k + 8,
        ));
    }
}

proof fn lemma_index_length(entries: Seq<EntryView>)
    requires
        data_of(entries).len() <= u64::MAX,
    ensures
        index_of(entries).len() == 8 * entries.len(),
    decreases entries.len(),
{
    if entries.len() > 0 {
        crate::bytes::lemma_limits();
        crate::bytes::numbers_come_back(data_of(entries.drop_last()).len(), 8);
        lemma_index_length(entries.drop_last());
    }
}

/// A page of a published prefix is the longest run of the next entries that were pushed
/// whose number and whose records fit a page, and it has at least one of them.
pub proof fn pages_give_back_what_was_pushed(
    entries: Seq<EntryView>,
    published: nat,
    progress: Progress,
    closed: bool,
    offset: u64,
)
    requires
        acceptable(entries),
        data_of(entries).len() <= MAX_BYTES,
        published <= entries.len(),
        published <= MAX_BYTES,
        progress.entries == published,
        progress.data_bytes == start_of(entries, published as int),
        offset < published,
    ensures
        match page_of(progress, closed, data_of(entries), index_of(entries), offset) {
            Ok(found) => 0 < found.len() <= PAGE_ENTRIES && offset + found.len() <= published
                && found == entries.subrange(offset as int, offset + found.len()) && data_of(
                found,
            ).len() <= PAGE_BYTES && (found.len() < PAGE_ENTRIES && offset + found.len() < published
                ==> data_of(entries.subrange(offset as int, offset + found.len() + 1)).len()
                > PAGE_BYTES),
            Err(_) => false,
        },
{
    let data = data_of(entries);
    let index = index_of(entries);
    let window = window_of(progress, closed, offset)->Ok_0->Some_0;
    let count = window.count as int;
    let rows = index.subrange(window.at as int, window.at + window.length);
    let positions = positions_of(progress, window, rows);
    lemma_positions(entries, published, progress, closed, offset);
    lemma_all_plausible(positions, 0, count, progress.data_bytes);
    assert(plausible(positions, 0, progress.data_bytes));
    let take = page_count(positions, 0, progress.data_bytes)->Ok_0;
    assert(positions[1] - positions[0] <= PAGE_BYTES);
    lemma_all_plausible(positions, 1, count, progress.data_bytes);
    assert(take >= 1);
    lemma_starts_grow(entries, offset + take, entries.len() as int);
    assert(entries.take(entries.len() as int) =~= entries);
    assert(starts(entries, positions, offset as int, take));
    assert(starts(entries, positions, offset as int, 0));
    let bytes = data.subrange(positions[0] as int, positions[take] as int);
    lemma_records(entries, positions, offset as int, take);
    let found = Seq::new(take as nat, |i: int| decoded(record_at(positions, bytes, i))->0);
    assert(found =~= entries.subrange(offset as int, offset + take));
    lemma_run_length(entries, offset as int, offset + take);
    if take < count {
        assert(starts(entries, positions, offset as int, take + 1));
        lemma_run_length(entries, offset as int, offset + take + 1);
    }
}

/// The records of a run lie between two starts.
proof fn lemma_run_length(entries: Seq<EntryView>, from: int, to: int)
    requires
        0 <= from <= to <= entries.len(),
    ensures
        data_of(entries.subrange(from, to)).len() == start_of(entries, to) - start_of(entries, from),
    decreases to - from,
{
    if from < to {
        let run = entries.subrange(from, to);
        assert(run.drop_last() =~= entries.subrange(from, to - 1));
        assert(entries.take(to).drop_last() =~= entries.take(to - 1));
        lemma_run_length(entries, from, to - 1);
    } else {
        assert(entries.subrange(from, to) =~= Seq::<EntryView>::empty());
    }
}

/// What a reader meets that starts at an entry and goes on behind each page.
pub open spec fn read_on(
    progress: Progress,
    closed: bool,
    data: Seq<u8>,
    index: Seq<u8>,
    offset: u64,
) -> Seq<EntryView>
    decreases progress.entries - offset,
{
    if offset >= progress.entries {
        Seq::empty()
    } else {
        match page_of(progress, closed, data, index, offset) {
            Ok(found) => if 0 < found.len() <= progress.entries - offset {
                found + read_on(progress, closed, data, index, (offset + found.len()) as u64)
            } else {
                Seq::empty()
            },
            Err(_) => Seq::empty(),
        }
    }
}

/// A reader that goes on behind each page meets every published entry once, in order,
/// from wherever it starts and whatever other readers do.
pub proof fn readers_meet_every_entry(
    entries: Seq<EntryView>,
    published: nat,
    progress: Progress,
    closed: bool,
    offset: u64,
)
    requires
        acceptable(entries),
        data_of(entries).len() <= MAX_BYTES,
        published <= entries.len(),
        published <= MAX_BYTES,
        progress.entries == published,
        progress.data_bytes == start_of(entries, published as int),
        offset <= published,
    ensures
        read_on(progress, closed, data_of(entries), index_of(entries), offset)
            == entries.subrange(offset as int, published as int),
    decreases published - offset,
{
    if offset < published {
        pages_give_back_what_was_pushed(entries, published, progress, closed, offset);
        let found = page_of(
            progress,
            closed,
            data_of(entries),
            index_of(entries),
            offset,
        )->Ok_0;
        let next = (offset + found.len()) as u64;
        readers_meet_every_entry(entries, published, progress, closed, next);
        assert(entries.subrange(offset as int, next as int) + entries.subrange(
            next as int,
            published as int,
        ) =~= entries.subrange(offset as int, published as int));
    } else {
        assert(entries.subrange(offset as int, published as int) =~= Seq::<EntryView>::empty());
    }
}

/// What a listing reserves: for each entry its record, and its place in the index.
pub open spec fn listing_cost(entries: Seq<EntryView>) -> int
    decreases entries.len(),
{
    if entries.len() == 0 {
        0
    } else {
        listing_cost(entries.drop_last()) + record(entries.last()).len() + INDEX_BYTES
    }
}

/// What some listings reserve together.
pub open spec fn total_cost(live: Seq<Seq<EntryView>>) -> int
    decreases live.len(),
{
    if live.len() == 0 {
        0
    } else {
        total_cost(live.drop_last()) + listing_cost(live.last())
    }
}

/// One thing that happens to the listings of a mount.
pub enum ListingStep {
    /// A listing is started.
    Start,
    /// An entry is pushed to one of them.
    Push { listing: int, entry: EntryView },
    /// The last reader and the producer of one of them are gone.
    End { listing: int },
}

/// The listings that are live, and what the budget counts of them.
pub struct Listings {
    pub live: Seq<Seq<EntryView>>,
    pub budget: Budget,
}

/// The step is about a listing that is live.
pub open spec fn step_fits(state: Listings, step: ListingStep) -> bool {
    match step {
        ListingStep::Start => true,
        ListingStep::Push { listing, .. } => 0 <= listing < state.live.len(),
        ListingStep::End { listing } => 0 <= listing < state.live.len(),
    }
}

/// What a step leaves. A start or an entry that is refused changes nothing.
pub open spec fn listings_after(state: Listings, step: ListingStep) -> Listings {
    match step {
        ListingStep::Start => if state.budget.snapshots >= MAX_SNAPSHOTS {
            state
        } else {
            Listings {
                live: state.live.push(Seq::empty()),
                budget: Budget {
                    snapshots: (state.budget.snapshots + 1) as usize,
                    ..state.budget
                },
            }
        },
        ListingStep::Push { listing, entry } => {
            let cost = record(entry).len() + INDEX_BYTES;
            if entry_refusal(entry) is Some || state.budget.bytes + cost > MAX_BYTES {
                state
            } else {
                Listings {
                    live: state.live.update(listing, state.live[listing].push(entry)),
                    budget: Budget { bytes: (state.budget.bytes + cost) as u64, ..state.budget },
                }
            }
        },
        ListingStep::End { listing } => Listings {
            live: state.live.remove(listing),
            budget: Budget {
                bytes: (state.budget.bytes - listing_cost(state.live[listing])) as u64,
                snapshots: (state.budget.snapshots - 1) as usize,
            },
        },
    }
}

/// The state after some steps from an empty mount, where each fits.
pub open spec fn listings_run(steps: Seq<ListingStep>) -> Option<Listings>
    decreases steps.len(),
{
    if steps.len() == 0 {
        Some(Listings { live: Seq::empty(), budget: Budget { bytes: 0, snapshots: 0 } })
    } else {
        match listings_run(steps.drop_last()) {
            Some(state) => if step_fits(state, steps.last()) {
                Some(listings_after(state, steps.last()))
            } else {
                None
            },
            None => None,
        }
    }
}

/// Whatever listings are started, filled and ended: the budget counts the live ones and
/// what they reserve together, and nothing once none is left.
pub proof fn usage_is_that_of_the_live_listings(steps: Seq<ListingStep>)
    requires
        listings_run(steps) is Some,
    ensures
        ({
            let state = listings_run(steps)->0;
            &&& state.budget.snapshots == state.live.len()
            &&& state.budget.bytes == total_cost(state.live)
            &&& state.live.len() == 0 ==> state.budget == (Budget { bytes: 0, snapshots: 0 })
        }),
    decreases steps.len(),
{
    if steps.len() > 0 {
        usage_is_that_of_the_live_listings(steps.drop_last());
        let state = listings_run(steps.drop_last())->0;
        let after = listings_after(state, steps.last());
        match steps.last() {
            ListingStep::Start => {
                if state.budget.snapshots < MAX_SNAPSHOTS {
                    assert(after.live.drop_last() =~= state.live);
                }
            },
            ListingStep::Push { listing, entry } => {
                let grown = state.live[listing].push(entry);
                assert(grown.drop_last() =~= state.live[listing]);
                lemma_total_update(state.live, listing, grown);
            },
            ListingStep::End { listing } => {
                lemma_total_remove(state.live, listing);
                lemma_total_nonnegative(after.live);
                lemma_cost_nonnegative(state.live[listing]);
            },
        }
    }
}

/// A builder has reserved what its entries cost.
pub proof fn reservations_cover_the_entries(builder: Builder)
    requires
        builder.wf(),
    ensures
        builder.reserved == listing_cost(builder.pushed@),
{
    lemma_cost(builder.pushed@);
}

proof fn lemma_cost(entries: Seq<EntryView>)
    requires
        data_of(entries).len() <= u64::MAX,
    ensures
        listing_cost(entries) == data_of(entries).len() + index_of(entries).len(),
    decreases entries.len(),
{
    if entries.len() > 0 {
        crate::bytes::lemma_limits();
        crate::bytes::numbers_come_back(data_of(entries.drop_last()).len(), 8);
        lemma_cost(entries.drop_last());
    }
}

proof fn lemma_cost_nonnegative(entries: Seq<EntryView>)
    ensures
        listing_cost(entries) >= 0,
    decreases entries.len(),
{
    if entries.len() > 0 {
        lemma_cost_nonnegative(entries.drop_last());
    }
}

proof fn lemma_total_nonnegative(live: Seq<Seq<EntryView>>)
    ensures
        total_cost(live) >= 0,
    decreases live.len(),
{
    if live.len() > 0 {
        lemma_cost_nonnegative(live.last());
        lemma_total_nonnegative(live.drop_last());
    }
}

proof fn lemma_total_update(live: Seq<Seq<EntryView>>, at: int, entries: Seq<EntryView>)
    requires
        0 <= at < live.len(),
    ensures
        total_cost(live.update(at, entries)) == total_cost(live) - listing_cost(live[at])
            + listing_cost(entries),
    decreases live.len(),
{
    let next = live.update(at, entries);
    if at == live.len() - 1 {
        assert(next.drop_last() =~= live.drop_last());
    } else {
        lemma_total_update(live.drop_last(), at, entries);
        assert(next.drop_last() =~= live.drop_last().update(at, entries));
    }
}

proof fn lemma_total_remove(live: Seq<Seq<EntryView>>, at: int)
    requires
        0 <= at < live.len(),
    ensures
        total_cost(live.remove(at)) == total_cost(live) - listing_cost(live[at]),
    decreases live.len(),
{
    let next = live.remove(at);
    if at == live.len() - 1 {
        assert(next =~= live.drop_last());
    } else {
        lemma_total_remove(live.drop_last(), at);
        assert(next.drop_last() =~= live.drop_last().remove(at));
        assert(next.last() == live.last());
    }
}

/// A position is the start of its record.
spec fn starts(entries: Seq<EntryView>, positions: Seq<u64>, offset: int, i: int) -> bool {
    positions[i] == start_of(entries, offset + i)
}

proof fn lemma_positions(
    entries: Seq<EntryView>,
    published: nat,
    progress: Progress,
    closed: bool,
    offset: u64,
)
    requires
        acceptable(entries),
        data_of(entries).len() <= MAX_BYTES,
        published <= entries.len(),
        published <= MAX_BYTES,
        progress.entries == published,
        progress.data_bytes == start_of(entries, published as int),
        offset < published,
    ensures
        window_of(progress, closed, offset) is Ok,
        window_of(progress, closed, offset)->Ok_0 is Some,
        ({
            let window = window_of(progress, closed, offset)->Ok_0->Some_0;
            let index = index_of(entries);
            let positions = positions_of(
                progress,
                window,
                index.subrange(window.at as int, window.at + window.length),
            );
            &&& window.at + window.length <= index.len()
            &&& 0 < window.count <= PAGE_ENTRIES
            &&& offset + window.count <= published
            &&& positions.len() == window.count + 1
            &&& forall|i: int|
                0 <= i <= window.count ==> #[trigger] starts(entries, positions, offset as int, i)
            &&& forall|i: int|
                0 <= i < window.count ==> #[trigger] plausible(positions, i, progress.data_bytes)
        }),
{
    let index = index_of(entries);
    let window = window_of(progress, closed, offset)->Ok_0->Some_0;
    let count = window.count as int;
    lemma_index_length(entries);
    let rows = index.subrange(window.at as int, window.at + window.length);
    let positions = positions_of(progress, window, rows);
    assert(rows.len() == window.length);
    assert(window.length as int / 8 == (if window.followed {
        count + 1
    } else {
        count
    }));
    assert forall|i: int| 0 <= i <= count implies #[trigger] starts(
        entries,
        positions,
        offset as int,
        i,
    ) by {
        if i < rows.len() / 8 {
            lemma_layout(entries, offset + i);
            assert(rows.subrange(8 * i, 8 * i + 8) =~= index.subrange(
                8 * (offset + i),
                8 * (offset + i) + 8,
            ));
        }
    }
    assert forall|i: int| 0 <= i < count implies #[trigger] plausible(
        positions,
        i,
        progress.data_bytes,
    ) by {
        lemma_layout(entries, offset + i);
        assert(entry_refusal(entries[offset + i]) is None);
        records_come_back(entries[offset + i]);
        assert(starts(entries, positions, offset as int, i));
        assert(starts(entries, positions, offset as int, i + 1));
        lemma_starts_grow(entries, offset + i + 1, published as int);
    }
}

proof fn lemma_records(entries: Seq<EntryView>, positions: Seq<u64>, offset: int, take: int)
    requires
        acceptable(entries),
        data_of(entries).len() <= MAX_BYTES,
        0 <= offset,
        0 <= take,
        offset + take <= entries.len(),
        take < positions.len(),
        forall|i: int| 0 <= i <= take ==> #[trigger] starts(entries, positions, offset, i),
    ensures
        forall|i: int|
            0 <= i < take ==> decoded(
                #[trigger] record_at(
                    positions,
                    data_of(entries).subrange(positions[0] as int, positions[take] as int),
                    i,
                ),
            ) == Some(entries[offset + i]),
{
    let data = data_of(entries);
    let bytes = data.subrange(positions[0] as int, positions[take] as int);
    assert(starts(entries, positions, offset, 0));
    assert(starts(entries, positions, offset, take));
    assert forall|i: int| 0 <= i < take implies decoded(#[trigger] record_at(positions, bytes, i))
        == Some(entries[offset + i]) by {
        lemma_layout(entries, offset + i);
        lemma_layout(entries, offset + take - 1);
        assert(starts(entries, positions, offset, i));
        assert(starts(entries, positions, offset, i + 1));
        lemma_starts_grow(entries, offset + i + 1, offset + take);
        lemma_starts_grow(entries, offset, offset + i);
        assert(record_at(positions, bytes, i) =~= data.subrange(
            start_of(entries, offset + i),
            start_of(entries, offset + i + 1),
        ));
        assert(entry_refusal(entries[offset + i]) is None);
        records_come_back(entries[offset + i]);
    }
}

proof fn lemma_starts_grow(entries: Seq<EntryView>, a: int, b: int)
    requires
        acceptable(entries),
        0 <= a <= b <= entries.len(),
        data_of(entries).len() <= u64::MAX,
    ensures
        start_of(entries, a) <= start_of(entries, b),
    decreases b - a,
{
    if a < b {
        lemma_layout(entries, b - 1);
        lemma_starts_grow(entries, a, b - 1);
    }
}

proof fn lemma_all_plausible(positions: Seq<u64>, i: int, count: int, data_bytes: u64)
    requires
        positions.len() == count + 1,
        0 <= i <= count,
        forall|j: int| 0 <= j < count ==> #[trigger] plausible(positions, j, data_bytes),
    ensures
        page_count(positions, i, data_bytes) is Ok,
        i <= page_count(positions, i, data_bytes)->Ok_0 <= count,
        ({
            let take = page_count(positions, i, data_bytes)->Ok_0;
            &&& take > i ==> positions[take] - positions[0] <= PAGE_BYTES
            &&& take < count ==> positions[take + 1] - positions[0] > PAGE_BYTES
        }),
    decreases count - i,
{
    if i < count {
        assert(plausible(positions, i, data_bytes));
        lemma_all_plausible(positions, i + 1, count, data_bytes);
    }
}

/// An entry is refused exactly where its name does not fit a page, is empty or holds what no
/// name may hold, or where it has no inode.
pub proof fn bad_entries_are_refused(entry: EntryView)
    ensures
        entry_refusal(entry) is None <==> {
            &&& encode_utf8(entry.name).len() <= 65_523
            &&& entry.inode != 0
            &&& entry.name.len() > 0
            &&& !entry.name.contains('/')
            &&& !entry.name.contains('\0')
        },
        entry_refusal(entry) == Some(ListingError::NameTooLong) <==> encode_utf8(entry.name).len()
            > 65_523,
        entry_refusal(entry) matches Some(error) ==> error == ListingError::NameTooLong || error
            == ListingError::Invalid,
{
}

/// A reader at a published entry reads on. Behind the last one it is told why the listing
/// failed, that it is complete, that its producer is gone, or to wait, in this order.
pub proof fn readers_learn_how_a_listing_ends(progress: Progress, closed: bool, offset: u64)
    requires
        progress.entries <= MAX_BYTES,
    ensures
        offset < progress.entries ==> {
            &&& window_of(progress, closed, offset) is Ok
            &&& window_of(progress, closed, offset)->Ok_0 matches Some(window) && {
                &&& window.at == 8 * offset
                &&& 0 < window.count <= 1024
                &&& offset + window.count <= progress.entries
                &&& window.count == 1024 || offset + window.count == progress.entries
                &&& window.followed <==> offset + window.count < progress.entries
                &&& window.length == 8 * (window.count + if window.followed {
                    1int
                } else {
                    0int
                })
            }
        },
        offset >= progress.entries && progress.error is Some ==> window_of(progress, closed, offset)
            == Err::<Option<Window>, ListingError>(progress.error->0),
        offset >= progress.entries && progress.error is None && progress.complete ==> window_of(
            progress,
            closed,
            offset,
        ) == Ok::<Option<Window>, ListingError>(None),
        offset >= progress.entries && progress.error is None && !progress.complete ==> window_of(
            progress,
            closed,
            offset,
        ) == Err::<Option<Window>, ListingError>(
            if closed {
                ListingError::Input
            } else {
                ListingError::WouldBlock
            },
        ),
{
}

/// Readers learn the failure of a listing as it is; only one that has no reason of its own
/// is told as a failure of the input.
pub proof fn failures_are_reported_as_they_are(error: ListingError, before: Builder, after: Builder)
    requires
        failed_with(before, after, error),
    ensures
        after.failed,
        error != ListingError::Invalid ==> after.progress.error == Some(error),
        error == ListingError::Invalid ==> after.progress.error == Some(ListingError::Input),
        after.progress.entries == before.progress.entries,
        after.progress.data_bytes == before.progress.data_bytes,
        after.progress.complete == before.progress.complete,
        after.pushed == before.pushed,
        after.reserved == before.reserved,
{
}

/// Listings are bounded in number and in bytes: one more is started only below 256, grows only
/// up to 256 MiB together with the others, and gives back what it held.
pub proof fn listings_are_bounded(
    started: &mut Budget,
    builder: Result<Builder, ListingError>,
    grown: &mut Budget,
    bytes: u64,
    growth: Result<(), ListingError>,
    released: &mut Budget,
    reserved: u64,
)
    requires
        call_ensures(Budget::start, (started,), builder),
        call_ensures(Budget::grow, (grown, bytes), growth),
        reserved <= old(released).bytes,
        old(released).snapshots > 0,
        call_ensures(Budget::release, (released, reserved), ()),
    ensures
        builder is Ok <==> old(started).snapshots < 256,
        builder is Ok ==> final(started).snapshots == old(started).snapshots + 1,
        builder is Err ==> builder->Err_0 == ListingError::TooMany && *final(started) == *old(started),
        final(started).bytes == old(started).bytes,
        growth is Ok <==> old(grown).bytes + bytes <= 268_435_456,
        growth is Ok ==> final(grown).bytes == old(grown).bytes + bytes,
        growth is Err ==> growth->Err_0 == ListingError::NoSpace && *final(grown) == *old(grown),
        final(released).bytes == old(released).bytes - reserved,
        final(released).snapshots == old(released).snapshots - 1,
{
}

/// A reader waits only at the end of a listing that goes on: what is published is read, and a
/// listing that ended is told as complete or as failed.
pub proof fn readers_wait_only_for_what_comes(
    progress: Progress,
    closed: bool,
    offset: u64,
    waiting: Waiting,
)
    requires
        call_ensures(ready, (progress, closed, offset), waiting),
    ensures
        waiting == Waiting::Wait <==> offset >= progress.entries && progress.error is None
            && !progress.complete && !closed,
        waiting == Waiting::Ready <==> offset < progress.entries || (progress.error is None
            && progress.complete),
        waiting matches Waiting::Failed(error) ==> error == (match progress.error {
            Some(error) => error,
            None => ListingError::Input,
        }),
{
}

} // verus!
