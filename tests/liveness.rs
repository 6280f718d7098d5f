use queue_recovery::error::RecoveryError;
use queue_recovery::lock::{inspect_lock, judge_owner, lock_contents, lock_owner};

fn own_pid() -> u32 {
    sysinfo::get_current_pid().expect("own process identifier").as_u32()
}

#[test]
fn lock_owner_skips_the_header() {
    assert_eq!(lock_owner(b"pid=4242"), Some(4242));
    assert_eq!(lock_owner(b"xxxx-17"), Some(-17));
}

#[test]
fn lock_owner_refuses_corrupted_contents() {
    assert_eq!(lock_owner(b""), None);
    assert_eq!(lock_owner(b"pid"), None);
    assert_eq!(lock_owner(b"pid="), None);
    assert_eq!(lock_owner(b"pid=12x"), None);
    assert_eq!(lock_owner(b"pid=99999999999"), None);
}

#[test]
fn lock_contents_reads_back() {
    assert_eq!(lock_contents(4242), b"pid=4242".to_vec());
    for pid in [0u32, 1, 31337, i32::MAX as u32] {
        assert_eq!(lock_owner(&lock_contents(pid)), Some(pid as i32));
    }
}

#[test]
fn judge_owner_keeps_live_and_frees_dead() {
    assert_eq!(judge_owner(12, true), Err(RecoveryError::StillLocked { owner: 12 }));
    assert_eq!(judge_owner(12, false), Ok(12));
}

#[test]
fn lock_of_running_process_is_still_held() {
    let pid = own_pid();
    let contents = lock_contents(pid);
    assert_eq!(
        inspect_lock(&contents),
        Err(RecoveryError::StillLocked { owner: pid as i32 })
    );
}

#[test]
fn lock_of_absent_process_is_stale() {
    // Above any process identifier that Linux hands out.
    assert_eq!(inspect_lock(b"pid=2147483647"), Ok(2147483647));
    assert_eq!(inspect_lock(b"pid=-5"), Ok(-5));
}

#[test]
fn malformed_lock_is_reported_apart() {
    assert_eq!(inspect_lock(b"pid=abc"), Err(RecoveryError::MalformedLock));
    assert_eq!(inspect_lock(b"pi"), Err(RecoveryError::MalformedLock));
}
