use queue_recovery::error::RecoveryError;
use queue_recovery::rebuild::{guess_send_metadata, CursorState, RebuildAction, RebuildEvent};
use queue_recovery::segment::newest_segment;

fn names(list: &[&str]) -> Vec<Vec<u8>> {
    list.iter().map(|s| s.as_bytes().to_vec()).collect()
}

/// Drives a rebuild in which every action succeeds, with `lengths` giving the
/// length of each segment by number; returns the actions asked for.
fn rebuild(listing: &[&str], lengths: &[(u64, u64)]) -> Vec<RebuildAction> {
    let (mut r, first) = guess_send_metadata();
    let mut actions = vec![first];
    let mut action = first;
    for _ in 0..10 {
        action = match action {
            RebuildAction::AcquireSendLock => r.step(RebuildEvent::LockAcquired),
            RebuildAction::ListDirectory => r.listed(&names(listing)),
            RebuildAction::MeasureSegment(n) => match lengths.iter().find(|(m, _)| *m == n) {
                Some((_, len)) => r.step(RebuildEvent::Measured(*len)),
                None => r.step(RebuildEvent::Failed),
            },
            RebuildAction::SaveCursor(_) => r.step(RebuildEvent::Saved),
            RebuildAction::ReleaseSendLock => r.step(RebuildEvent::Released),
            RebuildAction::Finish(_) => break,
        };
        actions.push(action);
    }
    actions
}

#[test]
fn cursor_points_at_end_of_newest_segment() {
    let actions = rebuild(&["0.q", "1.q", "2.q"], &[(0, 100), (1, 250), (2, 0)]);
    let c = CursorState { segment: 2, position: 0 };
    assert_eq!(
        actions,
        vec![
            RebuildAction::AcquireSendLock,
            RebuildAction::ListDirectory,
            RebuildAction::MeasureSegment(2),
            RebuildAction::SaveCursor(c),
            RebuildAction::ReleaseSendLock,
            RebuildAction::Finish(Ok(c)),
        ]
    );
}

#[test]
fn other_files_are_ignored() {
    let actions = rebuild(
        &["send.lock", "recv-metadata", "3.q", "10.q", "notes.txt"],
        &[(3, 5), (10, 77)],
    );
    let c = CursorState { segment: 10, position: 77 };
    assert!(actions.contains(&RebuildAction::SaveCursor(c)));
    assert_eq!(actions.last(), Some(&RebuildAction::Finish(Ok(c))));
}

#[test]
fn empty_directory_measures_segment_zero() {
    let with_zero = rebuild(&[], &[(0, 0)]);
    let c = CursorState { segment: 0, position: 0 };
    assert_eq!(with_zero.last(), Some(&RebuildAction::Finish(Ok(c))));
    // Without a `0.q` file the measurement fails, the lock is released and
    // the failure is reported; the same on every run.
    for _ in 0..2 {
        let without = rebuild(&[], &[]);
        assert_eq!(
            without,
            vec![
                RebuildAction::AcquireSendLock,
                RebuildAction::ListDirectory,
                RebuildAction::MeasureSegment(0),
                RebuildAction::ReleaseSendLock,
                RebuildAction::Finish(Err(RecoveryError::Io)),
            ]
        );
    }
}

#[test]
fn held_send_lock_saves_nothing() {
    let (mut r, _) = guess_send_metadata();
    let a = r.step(RebuildEvent::Failed);
    assert_eq!(a, RebuildAction::Finish(Err(RecoveryError::Io)));
    for e in [
        RebuildEvent::LockAcquired,
        RebuildEvent::Scanned(Ok(3)),
        RebuildEvent::Measured(9),
        RebuildEvent::Saved,
    ] {
        assert_eq!(r.step(e), a);
    }
}

#[test]
fn repeated_rebuild_saves_the_same_cursor() {
    let first = rebuild(&["0.q", "1.q", "2.q"], &[(0, 100), (1, 250), (2, 40)]);
    let second = rebuild(&["2.q", "0.q", "1.q"], &[(0, 100), (1, 250), (2, 40)]);
    assert_eq!(first, second);
}

#[test]
fn malformed_segment_name_is_fatal() {
    let actions = rebuild(&["0.q", "foo.q", "1.q"], &[(0, 1), (1, 1)]);
    assert_eq!(
        actions,
        vec![
            RebuildAction::AcquireSendLock,
            RebuildAction::ListDirectory,
            RebuildAction::ReleaseSendLock,
            RebuildAction::Finish(Err(RecoveryError::MalformedSegmentName { index: 1 })),
        ]
    );
}

#[test]
fn newest_segment_scans_the_listing() {
    assert_eq!(newest_segment(&names(&[])), Ok(0));
    assert_eq!(newest_segment(&names(&["5.q", "12.q", "7.q"])), Ok(12));
    assert_eq!(newest_segment(&names(&["+8.q", "3.q"])), Ok(8));
    assert_eq!(
        newest_segment(&names(&["1.q", "x.q", "y.q"])),
        Err(RecoveryError::MalformedSegmentName { index: 1 })
    );
}

#[test]
fn failures_after_the_lock_release_it() {
    let (mut r, _) = guess_send_metadata();
    r.step(RebuildEvent::LockAcquired);
    r.step(RebuildEvent::Scanned(Ok(4)));
    r.step(RebuildEvent::Measured(12));
    assert_eq!(r.step(RebuildEvent::Failed), RebuildAction::ReleaseSendLock);
    assert_eq!(r.step(RebuildEvent::Released), RebuildAction::Finish(Err(RecoveryError::Io)));
}
