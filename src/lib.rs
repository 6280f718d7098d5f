//! Crash recovery for a disk-backed, segmented queue: reclaiming lock files
//! whose owner process has died, and rebuilding the sender's cursor from the
//! segment files found on disk.
//!
//! The file-system work stays with the caller. The recovery sequences in
//! `unlock` and `rebuild` say which action comes next and take back what
//! came of it, so that their order and their failure handling are proved.
pub mod decimal;
pub mod error;
pub mod lock;
pub mod rebuild;
pub mod segment;
pub mod unlock;
