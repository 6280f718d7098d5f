use queue_recovery::error::RecoveryError;
use queue_recovery::lock::inspect_lock;
use queue_recovery::unlock::{
    lock_file_name, unlock_for_receiving, unlock_for_sending, unlock_queue, Role, UnlockAction,
    UnlockEvent,
};

fn own_pid() -> u32 {
    sysinfo::get_current_pid().expect("own process identifier").as_u32()
}

fn live_lock() -> Vec<u8> {
    format!("pid={}", own_pid()).into_bytes()
}

fn stale_lock() -> Vec<u8> {
    b"pid=2147483647".to_vec()
}

#[test]
fn lock_file_names() {
    assert_eq!(lock_file_name(Role::Send), "send.lock");
    assert_eq!(lock_file_name(Role::Recv), "recv.lock");
}

#[test]
fn stale_send_lock_is_removed() {
    let (mut u, first) = unlock_for_sending();
    assert_eq!(first, UnlockAction::InspectLock(Role::Send));
    let a = u.step(UnlockEvent::Inspected(inspect_lock(&stale_lock())));
    assert_eq!(a, UnlockAction::RemoveLock(Role::Send));
    assert_eq!(u.step(UnlockEvent::Removed), UnlockAction::Finish(Ok(())));
}

#[test]
fn live_receive_lock_is_kept() {
    let (mut u, first) = unlock_for_receiving();
    assert_eq!(first, UnlockAction::InspectLock(Role::Recv));
    let owner = own_pid() as i32;
    let a = u.step(UnlockEvent::Inspected(inspect_lock(&live_lock())));
    assert_eq!(a, UnlockAction::Finish(Err(RecoveryError::StillLocked { owner })));
    assert_eq!(
        u.step(UnlockEvent::Removed),
        UnlockAction::Finish(Err(RecoveryError::StillLocked { owner }))
    );
}

#[test]
fn queue_with_both_locks_stale_loses_both() {
    let (mut u, first) = unlock_queue();
    assert_eq!(first, UnlockAction::InspectLock(Role::Send));
    assert_eq!(
        u.step(UnlockEvent::Inspected(inspect_lock(&stale_lock()))),
        UnlockAction::RemoveLock(Role::Send)
    );
    assert_eq!(u.step(UnlockEvent::Removed), UnlockAction::InspectLock(Role::Recv));
    assert_eq!(
        u.step(UnlockEvent::Inspected(inspect_lock(&stale_lock()))),
        UnlockAction::RemoveLock(Role::Recv)
    );
    assert_eq!(u.step(UnlockEvent::Removed), UnlockAction::Finish(Ok(())));
}

#[test]
fn queue_with_live_send_lock_touches_neither() {
    let (mut u, _) = unlock_queue();
    let owner = own_pid() as i32;
    let a = u.step(UnlockEvent::Inspected(inspect_lock(&live_lock())));
    assert_eq!(a, UnlockAction::Finish(Err(RecoveryError::StillLocked { owner })));
    // Whatever is reported later, nothing more is asked of the receive lock.
    for e in [
        UnlockEvent::Inspected(Ok(1)),
        UnlockEvent::Removed,
        UnlockEvent::Failed,
    ] {
        assert_eq!(u.step(e), a);
    }
}

#[test]
fn missing_lock_file_is_reported_as_io() {
    let (mut u, _) = unlock_queue();
    assert_eq!(u.step(UnlockEvent::Failed), UnlockAction::Finish(Err(RecoveryError::Io)));
}

#[test]
fn failed_removal_stops_the_queue_unlock() {
    let (mut u, _) = unlock_queue();
    u.step(UnlockEvent::Inspected(Ok(7)));
    assert_eq!(u.step(UnlockEvent::Failed), UnlockAction::Finish(Err(RecoveryError::Io)));
}

#[test]
fn malformed_send_lock_stops_the_queue_unlock() {
    let (mut u, _) = unlock_queue();
    assert_eq!(
        u.step(UnlockEvent::Inspected(inspect_lock(b"pid=oops"))),
        UnlockAction::Finish(Err(RecoveryError::MalformedLock))
    );
}

#[test]
fn unanswered_action_is_asked_again() {
    let (mut u, _) = unlock_for_sending();
    assert_eq!(u.step(UnlockEvent::Removed), UnlockAction::InspectLock(Role::Send));
}
