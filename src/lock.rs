//! Lock files and the liveness of their owners. A lock file holds the
//! four-byte header `pid=` and then the owner's process identifier in
//! decimal.
use vstd::prelude::*;

use sysinfo::{Pid, ProcessRefreshKind, RefreshKind, System};

use crate::decimal::{
    decimal_digits, is_digit, lemma_decimal_round_trip, parse_i32, parse_i32_spec, push_decimal,
    unsigned_body,
};
use crate::error::RecoveryError;

verus! {

/// Length of the header that precedes the owner's identifier.
pub const LOCK_HEADER_LEN: usize = 4;

/// The header that the lock guard writes: `pid=`.
pub open spec fn lock_header() -> Seq<u8> {
    seq![112u8, 105u8, 100u8, 61u8]
}

/// The process named by a lock file's contents: what follows the header, read
/// as a `pid_t`. `None` marks a corrupted lock file.
pub open spec fn lock_owner_spec(contents: Seq<u8>) -> Option<i32> {
    if contents.len() < LOCK_HEADER_LEN {
        None
    } else {
        parse_i32_spec(contents.subrange(LOCK_HEADER_LEN as int, contents.len() as int))
    }
}

/// The contents of a lock file held by process `pid`.
pub open spec fn lock_contents_spec(pid: nat) -> Seq<u8> {
    lock_header() + decimal_digits(pid)
}

/// Whether a lock with these contents may be removed, given whether its owner
/// is running: `Ok(owner)` for a stale lock, `StillLocked` for a live owner,
/// `MalformedLock` for contents that name no process.
pub open spec fn lock_verdict(contents: Seq<u8>, running: bool) -> Result<i32, RecoveryError> {
    match lock_owner_spec(contents) {
        None => Err(RecoveryError::MalformedLock),
        Some(owner) => if running {
            Err(RecoveryError::StillLocked { owner })
        } else {
            Ok(owner)
        },
    }
}

/// Reads the owner's identifier out of a lock file's contents.
pub fn lock_owner(contents: &[u8]) -> (r: Option<i32>)
    ensures
        r == lock_owner_spec(contents@),
{
    if contents.len() < LOCK_HEADER_LEN {
        None
    } else {
        parse_i32(contents, LOCK_HEADER_LEN, contents.len())
    }
}

/// The contents that mark a lock as held by process `pid`.
pub fn lock_contents(pid: u32) -> (r: Vec<u8>)
    ensures
        r@ == lock_contents_spec(pid as nat),
{
    let mut r: Vec<u8> = Vec::new();
    r.push(112);
    r.push(105);
    r.push(100);
    r.push(61);
    push_decimal(pid as u64, &mut r);
    assert(r@ =~= lock_contents_spec(pid as nat));
    r
}

/// A lock written for a process is read back as naming that process.
pub proof fn lemma_lock_contents_round_trip(pid: u32)
    requires
        pid <= i32::MAX,
    ensures
        lock_owner_spec(lock_contents_spec(pid as nat)) == Some(pid as i32),
{
    let c = lock_contents_spec(pid as nat);
    let d = decimal_digits(pid as nat);
    lemma_decimal_round_trip(pid as nat);
    assert(c.subrange(4, c.len() as int) =~= d);
    assert(is_digit(d[0]));
    assert(unsigned_body(d) == d);
}

/// Relies on sysinfo's `System::new_with_specifics`, refreshing the process
/// list, and `System::process`: whether the operating system lists a process
/// with this identifier at the moment of the call.
#[verifier::external_body]
fn process_is_running(pid: i32) -> (r: bool) {
    let system = System::new_with_specifics(
        RefreshKind::nothing().with_processes(ProcessRefreshKind::nothing()),
    );
    system.process(Pid::from_u32(pid as u32)).is_some()
}

/// Decides on a lock whose owner is known: it may go only if the owner is not
/// running.
pub fn judge_owner(owner: i32, running: bool) -> (r: Result<i32, RecoveryError>)
    ensures
        r == (if running {
            Err(RecoveryError::StillLocked { owner })
        } else {
            Ok(owner)
        }),
{
    if running {
        Err(RecoveryError::StillLocked { owner })
    } else {
        Ok(owner)
    }
}

/// Decides on a lock from its contents and the liveness of its owner, which it
/// asks the operating system for. `Ok(owner)` means the lock is stale and may
/// be removed; nothing is removed here.
pub fn inspect_lock(contents: &[u8]) -> (r: Result<i32, RecoveryError>)
    ensures
        r == lock_verdict(contents@, true) || r == lock_verdict(contents@, false),
        lock_owner_spec(contents@) is None <==> r == Err::<i32, RecoveryError>(
            RecoveryError::MalformedLock,
        ),
{
    match lock_owner(contents) {
        None => Err(RecoveryError::MalformedLock),
        Some(owner) => {
            let running = process_is_running(owner);
            judge_owner(owner, running)
        },
    }
}

} // verus!
