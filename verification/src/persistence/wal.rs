//! The state of the open log. The file itself is written by the caller: each operation says what
//! to do with it, and is told once that was done.

use bytes::Bytes;
use vstd::prelude::*;

use crate::buffer::contents;
use crate::config::FsyncMode;
use crate::error::PersistenceError;
use crate::persistence::record::{WalRecord, WAL_HEADER};

verus! {

/// The open log.
#[derive(Clone, Copy, Debug, PartialEq, Eq, Structural)]
pub struct Wal {
    /// When records are forced to disk.
    pub fsync: FsyncMode,
    /// The length of the log.
    pub bytes_written: u64,
    /// Whether there are bytes that were not forced to disk.
    pub dirty: bool,
}

/// What to append: the bytes, and whether they are to be forced to disk at once.
#[derive(Debug)]
pub struct WalWrite {
    pub encoded: Bytes,
    pub sync: bool,
}

/// A sum of 64-bit numbers that stops at their end.
pub open spec fn saturating(first: u64, second: int) -> u64 {
    if first + second > u64::MAX {
        u64::MAX
    } else {
        (first + second) as u64
    }
}

impl Wal {
    /// A log that was just opened.
    pub fn open(fsync: FsyncMode, length: u64) -> (wal: Self)
        ensures
            wal == (Wal { fsync, bytes_written: length, dirty: false }),
    {
        Self { fsync, bytes_written: length, dirty: false }
    }

    /// What to append for a record.
    pub fn append(&self, record: &WalRecord) -> (write: Result<WalWrite, PersistenceError>)
        ensures
            match write {
                Ok(write) => record@.encodable() && contents(write.encoded) == record@.encoded()
                    && write.sync == (self.fsync == FsyncMode::Always),
                Err(error) => !record@.encodable() && error
                    == PersistenceError::InvalidRecordLength,
            },
    {
        match record.encode() {
            Ok(encoded) => Ok(WalWrite { encoded, sync: self.fsync == FsyncMode::Always }),
            Err(error) => Err(error),
        }
    }

    /// The bytes were appended, flushed, and forced to disk where that was asked for.
    pub fn appended(&mut self, length: usize)
        ensures
            *final(self) == (Wal {
                fsync: old(self).fsync,
                bytes_written: saturating(old(self).bytes_written, length as int),
                dirty: old(self).fsync != FsyncMode::Always,
            }),
    {
        self.dirty = self.fsync != FsyncMode::Always;
        self.bytes_written = self.bytes_written.saturating_add(length as u64);
    }

    /// Whether a flush of the log also forces it to disk.
    pub fn flush(&self) -> (sync: bool)
        ensures
            sync == (self.fsync != FsyncMode::Never),
    {
        self.fsync != FsyncMode::Never
    }

    /// Whether the log has to be forced to disk on a tick: in the mode that does so every second,
    /// when something was written since.
    pub fn sync_if_needed(&self) -> (sync: bool)
        ensures
            sync == (self.fsync == FsyncMode::EverySecond && self.dirty),
    {
        self.fsync == FsyncMode::EverySecond && self.dirty
    }

    /// The log was flushed or forced to disk.
    pub fn synced(&mut self)
        ensures
            *final(self) == (Wal { dirty: false, ..*old(self) }),
    {
        self.dirty = false;
    }

    /// The length of the log.
    pub fn bytes_written(&self) -> (length: u64)
        ensures
            length == self.bytes_written,
    {
        self.bytes_written
    }

    /// Whether a log that was emptied is to be forced to disk at once.
    pub fn reset(&self) -> (sync: bool)
        ensures
            sync == (self.fsync != FsyncMode::Never),
    {
        self.fsync != FsyncMode::Never
    }

    /// The log was emptied and given its header, and forced to disk where that was asked for.
    pub fn was_reset(&mut self)
        ensures
            *final(self) == (Wal {
                fsync: old(self).fsync,
                bytes_written: 8,
                dirty: old(self).fsync == FsyncMode::Never,
            }),
    {
        self.dirty = self.fsync == FsyncMode::Never;
        self.bytes_written = WAL_HEADER.len() as u64;
    }
}

/// In the mode that leaves it to the operating system, neither a flush nor a tick nor an emptied log
/// is forced to disk. In the others a flush and an emptied log are, and a tick is in the mode that
/// forces every second, exactly where something was written since.
pub proof fn law_modes_decide_when_to_force(wal: Wal, flushed: bool, ticked: bool, emptied: bool)
    requires
        call_ensures(Wal::flush, (&wal,), flushed),
        call_ensures(Wal::sync_if_needed, (&wal,), ticked),
        call_ensures(Wal::reset, (&wal,), emptied),
    ensures
        wal.fsync == FsyncMode::Never ==> !flushed && !ticked && !emptied,
        wal.fsync == FsyncMode::Always ==> flushed && !ticked && emptied,
        wal.fsync == FsyncMode::EverySecond ==> flushed && ticked == wal.dirty && emptied,
{
}

} // verus!
