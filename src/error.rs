//! What can go wrong during recovery.
use vstd::prelude::*;

verus! {

/// The reasons recovery stops. The caller turns each into a message for an
/// operator; `MalformedLock` and `MalformedSegmentName` mean that the queue's
/// control files are corrupted and need a person's attention.
#[derive(Clone, Copy, Debug, PartialEq, Eq, Structural)]
pub enum RecoveryError {
    /// The process named in the lock file is still running.
    StillLocked { owner: i32 },
    /// The lock file's text does not name a process.
    MalformedLock,
    /// A file with the segment extension whose stem is no sequence number;
    /// `index` is its place in the directory listing.
    MalformedSegmentName { index: usize },
    /// An operation that the caller performed for the library (reading,
    /// removing, locking, measuring or saving) failed; the caller holds its
    /// error.
    Io,
}

} // verus!
