//! Bytes on their way into the spool: sealing an immutable snapshot and filling a
//! reserved working source. The bytes themselves go to files elsewhere; what may
//! be kept, and the digest of what was kept, is decided here.
use crate::digest::{absorbed, digest_text, write_hex, Hasher};
use crate::journal::records::JournalError;
use vstd::prelude::*;

verus! {

/// How many spool files an account may keep. Empty files count too.
pub const FILE_LIMIT: u64 = 10_000;

/// The spool of an account as it stands.
#[derive(Clone, Copy, Debug, PartialEq, Eq, Structural)]
pub struct Usage {
    /// Every retained byte, including those of interrupted publications.
    pub bytes: u64,
    pub files: u64,
}

/// What is left of a quota.
pub open spec fn left(quota: u64, retained: u64) -> u64 {
    if retained <= quota {
        (quota - retained) as u64
    } else {
        0
    }
}

/// What is left of a quota.
pub fn available(quota: u64, retained: u64) -> (bytes: u64)
    ensures
        bytes == left(quota, retained),
{
    if retained <= quota {
        quota - retained
    } else {
        0
    }
}

/// Adds one spool file to the usage. `plain` says that the entry is a regular file
/// and no link.
pub fn count_file(usage: Usage, plain: bool, length: u64) -> (result: Result<Usage, JournalError>)
    ensures
        result == (if usage.files >= FILE_LIMIT {
            Err::<Usage, JournalError>(JournalError::Quota)
        } else if !plain {
            Err(JournalError::Corrupt)
        } else if usage.bytes + length > u64::MAX {
            Err(JournalError::Quota)
        } else {
            Ok(Usage { bytes: (usage.bytes + length) as u64, files: (usage.files + 1) as u64 })
        }),
{
    if usage.files >= FILE_LIMIT {
        return Err(JournalError::Quota);
    }
    if !plain {
        return Err(JournalError::Corrupt);
    }
    match usage.bytes.checked_add(length) {
        Some(bytes) => Ok(Usage { bytes, files: usage.files + 1 }),
        None => Err(JournalError::Quota),
    }
}

/// A complete immutable snapshot: its length and the text of its digest.
#[derive(Debug)]
pub struct Sealed {
    pub size: u64,
    pub sha256: String,
}

/// The snapshot of some bytes.
pub open spec fn seals(sealed: Sealed, bytes: Seq<u8>) -> bool {
    sealed.size == bytes.len() && sealed.sha256@ == digest_text(bytes)
}

/// A snapshot being written.
pub struct Seal {
    available: u64,
    size: u64,
    hasher: Hasher,
}

impl View for Seal {
    type V = Seq<u8>;

    closed spec fn view(&self) -> Seq<u8> {
        absorbed(self.hasher)
    }
}

impl Seal {
    /// How many bytes the snapshot may hold.
    pub closed spec fn limit(&self) -> u64 {
        self.available
    }

    /// The length is that of the bytes taken in, and stays within the limit.
    pub closed spec fn inv(&self) -> bool {
        self.size == self@.len() && self.size <= self.available
    }

    /// Starts a snapshot within what is left of the quota.
    pub fn start(quota: u64, usage: Usage) -> (result: Result<Seal, JournalError>)
        ensures
            match result {
                Ok(seal) => usage.files < FILE_LIMIT && seal@ == Seq::<u8>::empty() && seal.limit()
                    == left(quota, usage.bytes) && seal.inv(),
                Err(error) => usage.files >= FILE_LIMIT && error == JournalError::Quota,
            },
    {
        if usage.files >= FILE_LIMIT {
            return Err(JournalError::Quota);
        }
        Ok(Seal { available: available(quota, usage.bytes), size: 0, hasher: Hasher::new() })
    }

    /// Takes in the next bytes, unless they go over the limit.
    pub fn write(&mut self, bytes: &[u8]) -> (result: Result<(), JournalError>)
        requires
            old(self).inv(),
        ensures
            final(self).inv(),
            final(self).limit() == old(self).limit(),
            match result {
                Ok(()) => old(self)@.len() + bytes@.len() <= old(self).limit() && final(self)@
                    == old(self)@ + bytes@,
                Err(error) => error == JournalError::Quota && old(self)@.len() + bytes@.len()
                    > old(self).limit() && final(self)@ == old(self)@,
            },
    {
        let count = bytes.len() as u64;
        match self.size.checked_add(count) {
            Some(size) => {
                if size > self.available {
                    return Err(JournalError::Quota);
                }
                self.size = size;
                self.hasher.update(bytes);
                Ok(())
            },
            None => Err(JournalError::Quota),
        }
    }

    /// The finished snapshot.
    pub fn finish(self) -> (sealed: Sealed)
        requires
            self.inv(),
        ensures
            seals(sealed, self@),
            sealed.size <= self.limit(),
    {
        let digest = self.hasher.finalize();
        Sealed { size: self.size, sha256: write_hex(digest.as_slice()) }
    }
}

/// How far a reserved working source has been filled. It cannot become visible
/// before every expected byte was provided.
#[derive(Clone, Copy, Debug, PartialEq, Eq, Structural)]
pub struct WorkingSource {
    pub size: u64,
    pub written: u64,
}

impl WorkingSource {
    /// Takes in the next bytes; they go to the place where the last ones ended.
    pub fn write_chunk(&mut self, count: u64) -> (result: Result<(), JournalError>)
        ensures
            match result {
                Ok(()) => old(self).written + count <= old(self).size && *final(self) == (
                WorkingSource { written: (old(self).written + count) as u64, ..*old(self) }),
                Err(error) => *final(self) == *old(self) && error == (if old(self).written + count
                    > u64::MAX {
                    JournalError::Quota
                } else {
                    JournalError::Corrupt
                }) && old(self).written + count > old(self).size,
            },
    {
        match self.written.checked_add(count) {
            Some(end) => {
                if end > self.size {
                    return Err(JournalError::Corrupt);
                }
                self.written = end;
                Ok(())
            },
            None => Err(JournalError::Quota),
        }
    }
}

} // verus!
