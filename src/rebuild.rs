//! Rebuilding the sender's cursor from the segment files on disk. The order of
//! the work is fixed: take the send lock, list the directory, measure the
//! newest segment, save the cursor, release the lock. The caller performs each
//! action and reports back with an event; the lock is held from the moment it
//! is taken until the release, and nothing is listed, measured or saved
//! without it.
use vstd::prelude::*;

use crate::error::RecoveryError;
use crate::segment::{
    greatest_segment, has_malformed_segment, is_malformed_segment, is_segment_file,
    lemma_greatest_segment_bounds, segment_number,
    lemma_newest_segment_ignores_order, newest_segment,
};

verus! {

/// The sender's place in the queue: a segment and a byte offset in it.
#[derive(Clone, Copy, Debug, PartialEq, Eq, Structural)]
pub struct CursorState {
    pub segment: u64,
    pub position: u64,
}

/// What the caller is asked to do next.
#[derive(Clone, Copy, Debug, PartialEq, Eq)]
pub enum RebuildAction {
    /// Take the send lock of the queue directory.
    AcquireSendLock,
    /// List the file names of the queue directory and pass them to
    /// `SendMetadataRebuild::listed`.
    ListDirectory,
    /// Report the length in bytes of the file of this segment
    /// (`segment_file_name`).
    MeasureSegment(u64),
    /// Save this cursor as the sender's state, replacing what was saved.
    SaveCursor(CursorState),
    /// Release the send lock.
    ReleaseSendLock,
    /// Stop with this result: the cursor saved, or why none was.
    Finish(Result<CursorState, RecoveryError>),
}

/// What the caller reports after an action.
#[derive(Clone, Copy, Debug, PartialEq, Eq)]
pub enum RebuildEvent {
    LockAcquired,
    /// The newest segment of the listing, as `newest_segment` finds it.
    Scanned(Result<u64, RecoveryError>),
    /// The length in bytes of the newest segment's file.
    Measured(u64),
    Saved,
    Released,
    /// The action failed (the lock is held by another process, a file is
    /// absent, a write failed); the caller keeps the error.
    Failed,
}

#[derive(Clone, Copy, Debug, PartialEq, Eq)]
pub enum RebuildStage {
    AwaitingLock,
    Listing,
    Measuring(u64),
    Saving(CursorState),
    /// Releasing the lock; then finishing with this result.
    Releasing(Result<CursorState, RecoveryError>),
    Finished(Result<CursorState, RecoveryError>),
}

/// Whether the send lock is held in this stage.
pub open spec fn holds_lock(stage: RebuildStage) -> bool {
    match stage {
        RebuildStage::Listing => true,
        RebuildStage::Measuring(_) => true,
        RebuildStage::Saving(_) => true,
        RebuildStage::Releasing(_) => true,
        _ => false,
    }
}

/// The next stage and action after `event`, from `stage`. An event that
/// answers no pending action leaves the stage as it is and asks for that
/// action again.
pub open spec fn rebuild_next(stage: RebuildStage, event: RebuildEvent) -> (
    RebuildStage,
    RebuildAction,
) {
    let io = Err::<CursorState, RecoveryError>(RecoveryError::Io);
    match stage {
        RebuildStage::AwaitingLock => match event {
            RebuildEvent::LockAcquired => (RebuildStage::Listing, RebuildAction::ListDirectory),
            RebuildEvent::Failed => (RebuildStage::Finished(io), RebuildAction::Finish(io)),
            _ => (stage, RebuildAction::AcquireSendLock),
        },
        RebuildStage::Listing => match event {
            RebuildEvent::Scanned(Ok(n)) => (
                RebuildStage::Measuring(n),
                RebuildAction::MeasureSegment(n),
            ),
            RebuildEvent::Scanned(Err(e)) => (
                RebuildStage::Releasing(Err(e)),
                RebuildAction::ReleaseSendLock,
            ),
            RebuildEvent::Failed => (RebuildStage::Releasing(io), RebuildAction::ReleaseSendLock),
            _ => (stage, RebuildAction::ListDirectory),
        },
        RebuildStage::Measuring(n) => match event {
            RebuildEvent::Measured(len) => (
                RebuildStage::Saving(CursorState { segment: n, position: len }),
                RebuildAction::SaveCursor(CursorState { segment: n, position: len }),
            ),
            RebuildEvent::Failed => (RebuildStage::Releasing(io), RebuildAction::ReleaseSendLock),
            _ => (stage, RebuildAction::MeasureSegment(n)),
        },
        RebuildStage::Saving(c) => match event {
            RebuildEvent::Saved => (RebuildStage::Releasing(Ok(c)), RebuildAction::ReleaseSendLock),
            RebuildEvent::Failed => (RebuildStage::Releasing(io), RebuildAction::ReleaseSendLock),
            _ => (stage, RebuildAction::SaveCursor(c)),
        },
        RebuildStage::Releasing(o) => match event {
            RebuildEvent::Released => (RebuildStage::Finished(o), RebuildAction::Finish(o)),
            RebuildEvent::Failed => (RebuildStage::Finished(o), RebuildAction::Finish(o)),
            _ => (stage, RebuildAction::ReleaseSendLock),
        },
        RebuildStage::Finished(o) => (stage, RebuildAction::Finish(o)),
    }
}

/// The actions that answer a sequence of events, from `stage`.
pub open spec fn rebuild_run(stage: RebuildStage, events: Seq<RebuildEvent>) -> Seq<RebuildAction>
    decreases events.len(),
{
    if events.len() == 0 {
        Seq::empty()
    } else {
        let (next, action) = rebuild_next(stage, events[0]);
        seq![action] + rebuild_run(next, events.drop_first())
    }
}

/// The cursor rebuilt from a directory listing and the newest segment's
/// length: the end of the newest segment.
pub open spec fn rebuilt_cursor(names: Seq<Seq<u8>>, length: u64) -> CursorState {
    CursorState { segment: greatest_segment(names) as u64, position: length }
}

/// A rebuild of the sender's cursor in progress.
pub struct SendMetadataRebuild {
    pub stage: RebuildStage,
}

/// Starts rebuilding the sender's cursor: the first action takes the send
/// lock.
pub fn guess_send_metadata() -> (r: (SendMetadataRebuild, RebuildAction))
    ensures
        r.0.stage == RebuildStage::AwaitingLock,
        r.1 == RebuildAction::AcquireSendLock,
{
    (SendMetadataRebuild { stage: RebuildStage::AwaitingLock }, RebuildAction::AcquireSendLock)
}

impl SendMetadataRebuild {
    /// Advances by one event and says what to do next.
    pub fn step(&mut self, event: RebuildEvent) -> (r: RebuildAction)
        ensures
            (final(self).stage, r) == rebuild_next(old(self).stage, event),
    {
        let io = Err::<CursorState, RecoveryError>(RecoveryError::Io);
        match self.stage {
            RebuildStage::AwaitingLock => match event {
                RebuildEvent::LockAcquired => {
                    self.stage = RebuildStage::Listing;
                    RebuildAction::ListDirectory
                },
                RebuildEvent::Failed => {
                    self.stage = RebuildStage::Finished(io);
                    RebuildAction::Finish(io)
                },
                _ => RebuildAction::AcquireSendLock,
            },
            RebuildStage::Listing => match event {
                RebuildEvent::Scanned(Ok(n)) => {
                    self.stage = RebuildStage::Measuring(n);
                    RebuildAction::MeasureSegment(n)
                },
                RebuildEvent::Scanned(Err(e)) => {
                    self.stage = RebuildStage::Releasing(Err(e));
                    RebuildAction::ReleaseSendLock
                },
                RebuildEvent::Failed => {
                    self.stage = RebuildStage::Releasing(io);
                    RebuildAction::ReleaseSendLock
                },
                _ => RebuildAction::ListDirectory,
            },
            RebuildStage::Measuring(n) => match event {
                RebuildEvent::Measured(len) => {
                    let c = CursorState { segment: n, position: len };
                    self.stage = RebuildStage::Saving(c);
                    RebuildAction::SaveCursor(c)
                },
                RebuildEvent::Failed => {
                    self.stage = RebuildStage::Releasing(io);
                    RebuildAction::ReleaseSendLock
                },
                _ => RebuildAction::MeasureSegment(n),
            },
            RebuildStage::Saving(c) => match event {
                RebuildEvent::Saved => {
                    self.stage = RebuildStage::Releasing(Ok(c));
                    RebuildAction::ReleaseSendLock
                },
                RebuildEvent::Failed => {
                    self.stage = RebuildStage::Releasing(io);
                    RebuildAction::ReleaseSendLock
                },
                _ => RebuildAction::SaveCursor(c),
            },
            RebuildStage::Releasing(o) => match event {
                RebuildEvent::Released => {
                    self.stage = RebuildStage::Finished(o);
                    RebuildAction::Finish(o)
                },
                RebuildEvent::Failed => {
                    self.stage = RebuildStage::Finished(o);
                    RebuildAction::Finish(o)
                },
                _ => RebuildAction::ReleaseSendLock,
            },
            RebuildStage::Finished(o) => RebuildAction::Finish(o),
        }
    }

    /// Reports the directory listing: scans it for the newest segment and
    /// advances as `step` does on the scan's result.
    pub fn listed(&mut self, names: &Vec<Vec<u8>>) -> (r: RebuildAction)
        ensures
            !has_malformed_segment(names.deep_view()) ==> (final(self).stage, r) == rebuild_next(
                old(self).stage,
                RebuildEvent::Scanned(Ok(greatest_segment(names.deep_view()) as u64)),
            ),
            has_malformed_segment(names.deep_view()) ==> exists|index: usize|
                {
                    &&& index < names.len()
                    &&& is_malformed_segment(names.deep_view()[index as int])
                    &&& forall|j: int|
                        0 <= j < index ==> !#[trigger] is_malformed_segment(names.deep_view()[j])
                    &&& (final(self).stage, r) == rebuild_next(
                        old(self).stage,
                        RebuildEvent::Scanned(Err(RecoveryError::MalformedSegmentName { index })),
                    )
                },
    {
        let scan = newest_segment(names);
        self.step(RebuildEvent::Scanned(scan))
    }
}

/// The lock discipline: the directory is listed, the segment measured and the
/// cursor saved only while the send lock is held; the lock is released only
/// where it was held; the rebuild finishes only once the lock is free; and
/// the lock is taken only by acquiring it.
pub proof fn lemma_rebuild_lock_discipline(stage: RebuildStage, event: RebuildEvent)
    ensures
        ({
            let (next, action) = rebuild_next(stage, event);
            &&& (action is ListDirectory || action is MeasureSegment || action is SaveCursor)
                ==> holds_lock(next)
            &&& action is ReleaseSendLock ==> holds_lock(stage) && holds_lock(next)
            &&& action is Finish ==> !holds_lock(next)
            &&& (!holds_lock(stage) && holds_lock(next)) ==> stage == RebuildStage::AwaitingLock
                && event == RebuildEvent::LockAcquired
        }),
{
}

/// Once finished, every further event is answered with the same result.
pub proof fn lemma_rebuild_finished_stays(o: Result<CursorState, RecoveryError>, events: Seq<RebuildEvent>)
    ensures
        rebuild_run(RebuildStage::Finished(o), events).len() == events.len(),
        forall|k: int|
            0 <= k < events.len() ==> #[trigger] rebuild_run(RebuildStage::Finished(o), events)[k]
                == RebuildAction::Finish(o),
    decreases events.len(),
{
    if events.len() > 0 {
        lemma_rebuild_finished_stays(o, events.drop_first());
        let rest = rebuild_run(RebuildStage::Finished(o), events.drop_first());
        assert forall|k: int| 0 <= k < events.len() implies #[trigger] rebuild_run(
            RebuildStage::Finished(o),
            events,
        )[k] == RebuildAction::Finish(o) by {
            if k > 0 {
                assert(rest[k - 1] == RebuildAction::Finish(o));
            }
        }
    }
}

/// When the send lock cannot be taken, the rebuild fails and saves nothing,
/// whatever follows.
pub proof fn lemma_rebuild_without_lock_saves_nothing(later: Seq<RebuildEvent>)
    ensures
        ({
            let run = rebuild_run(RebuildStage::AwaitingLock, seq![RebuildEvent::Failed] + later);
            &&& run[0] == RebuildAction::Finish(Err(RecoveryError::Io))
            &&& forall|k: int| 0 <= k < run.len() ==> !(#[trigger] run[k] is SaveCursor)
        }),
{
    let events = seq![RebuildEvent::Failed] + later;
    let o = Err::<CursorState, RecoveryError>(RecoveryError::Io);
    assert(events.drop_first() =~= later);
    lemma_rebuild_finished_stays(o, later);
    let run = rebuild_run(RebuildStage::AwaitingLock, events);
    let rest = rebuild_run(RebuildStage::Finished(o), later);
    assert forall|k: int| 0 <= k < run.len() implies !(#[trigger] run[k] is SaveCursor) by {
        if k > 0 {
            assert(rest[k - 1] == RebuildAction::Finish(o));
        }
    }
}

/// A rebuild in which every action succeeds lists, measures the newest
/// segment, saves the end of that segment as the cursor, releases the lock
/// and reports the cursor saved.
pub proof fn lemma_rebuild_saves_end_of_newest(names: Seq<Seq<u8>>, length: u64)
    requires
        !has_malformed_segment(names),
    ensures
        rebuild_run(
            RebuildStage::AwaitingLock,
            seq![
                RebuildEvent::LockAcquired,
                RebuildEvent::Scanned(Ok(greatest_segment(names) as u64)),
                RebuildEvent::Measured(length),
                RebuildEvent::Saved,
                RebuildEvent::Released,
            ],
        ) == seq![
            RebuildAction::ListDirectory,
            RebuildAction::MeasureSegment(greatest_segment(names) as u64),
            RebuildAction::SaveCursor(rebuilt_cursor(names, length)),
            RebuildAction::ReleaseSendLock,
            RebuildAction::Finish(Ok(rebuilt_cursor(names, length))),
        ],
{
    let n = greatest_segment(names) as u64;
    let c = rebuilt_cursor(names, length);
    let e0 = seq![
        RebuildEvent::LockAcquired,
        RebuildEvent::Scanned(Ok(n)),
        RebuildEvent::Measured(length),
        RebuildEvent::Saved,
        RebuildEvent::Released,
    ];
    let e1 = e0.drop_first();
    let e2 = e1.drop_first();
    let e3 = e2.drop_first();
    let e4 = e3.drop_first();
    let e5 = e4.drop_first();
    assert(e5 =~= Seq::<RebuildEvent>::empty());
    assert(e1[0] == RebuildEvent::Scanned(Ok(n)));
    assert(e2[0] == RebuildEvent::Measured(length));
    assert(e3[0] == RebuildEvent::Saved);
    assert(e4[0] == RebuildEvent::Released);
    assert(rebuild_run(RebuildStage::Finished(Ok(c)), e5) =~= Seq::<RebuildAction>::empty());
    assert(rebuild_run(RebuildStage::Releasing(Ok(c)), e4) =~= seq![RebuildAction::Finish(Ok(c))]);
    assert(rebuild_run(RebuildStage::Saving(c), e3) =~= seq![
        RebuildAction::ReleaseSendLock,
        RebuildAction::Finish(Ok(c)),
    ]);
    assert(rebuild_run(RebuildStage::Measuring(n), e2) =~= seq![
        RebuildAction::SaveCursor(c),
        RebuildAction::ReleaseSendLock,
        RebuildAction::Finish(Ok(c)),
    ]);
    assert(rebuild_run(RebuildStage::Listing, e1) =~= seq![
        RebuildAction::MeasureSegment(n),
        RebuildAction::SaveCursor(c),
        RebuildAction::ReleaseSendLock,
        RebuildAction::Finish(Ok(c)),
    ]);
    assert(rebuild_run(RebuildStage::AwaitingLock, e0) =~= seq![
        RebuildAction::ListDirectory,
        RebuildAction::MeasureSegment(n),
        RebuildAction::SaveCursor(c),
        RebuildAction::ReleaseSendLock,
        RebuildAction::Finish(Ok(c)),
    ]);
}

/// With no segment file in the directory the rebuild measures segment zero;
/// when that file is absent too, it releases the lock and reports the failure,
/// without saving a cursor.
pub proof fn lemma_rebuild_of_empty_directory(names: Seq<Seq<u8>>)
    requires
        forall|i: int| 0 <= i < names.len() ==> !is_segment_file(#[trigger] names[i]),
    ensures
        !has_malformed_segment(names),
        greatest_segment(names) == 0,
        rebuild_run(
            RebuildStage::AwaitingLock,
            seq![
                RebuildEvent::LockAcquired,
                RebuildEvent::Scanned(Ok(greatest_segment(names) as u64)),
                RebuildEvent::Failed,
                RebuildEvent::Released,
            ],
        ) == seq![
            RebuildAction::ListDirectory,
            RebuildAction::MeasureSegment(0),
            RebuildAction::ReleaseSendLock,
            RebuildAction::Finish(Err(RecoveryError::Io)),
        ],
{
    lemma_greatest_segment_bounds(names);
    if greatest_segment(names) != 0 {
        let i = choose|i: int|
            0 <= i < names.len() && #[trigger] segment_number(names[i]) == Some(
                greatest_segment(names) as u64,
            );
        assert(!is_segment_file(names[i]));
    }
    let io = Err::<CursorState, RecoveryError>(RecoveryError::Io);
    let e0 = seq![
        RebuildEvent::LockAcquired,
        RebuildEvent::Scanned(Ok(0u64)),
        RebuildEvent::Failed,
        RebuildEvent::Released,
    ];
    let e1 = e0.drop_first();
    let e2 = e1.drop_first();
    let e3 = e2.drop_first();
    assert(e3.drop_first() =~= Seq::<RebuildEvent>::empty());
    assert(e1[0] == RebuildEvent::Scanned(Ok(0u64)));
    assert(e2[0] == RebuildEvent::Failed);
    assert(e3[0] == RebuildEvent::Released);
    assert(rebuild_run(RebuildStage::Finished(io), e3.drop_first()) =~= Seq::<RebuildAction>::empty());
    assert(rebuild_run(RebuildStage::Releasing(io), e3) =~= seq![RebuildAction::Finish(io)]);
    assert(rebuild_run(RebuildStage::Measuring(0), e2) =~= seq![
        RebuildAction::ReleaseSendLock,
        RebuildAction::Finish(io),
    ]);
    assert(rebuild_run(RebuildStage::Listing, e1) =~= seq![
        RebuildAction::MeasureSegment(0),
        RebuildAction::ReleaseSendLock,
        RebuildAction::Finish(io),
    ]);
    assert(rebuild_run(RebuildStage::AwaitingLock, e0) =~= seq![
        RebuildAction::ListDirectory,
        RebuildAction::MeasureSegment(0),
        RebuildAction::ReleaseSendLock,
        RebuildAction::Finish(io),
    ]);
}

/// Rebuilding twice on an unchanged directory saves the same cursor, even
/// where the directory lists its files in another order the second time.
pub proof fn lemma_rebuild_is_repeatable(first: Seq<Seq<u8>>, second: Seq<Seq<u8>>, length: u64)
    requires
        first.to_set() == second.to_set(),
    ensures
        has_malformed_segment(first) == has_malformed_segment(second),
        rebuilt_cursor(first, length) == rebuilt_cursor(second, length),
{
    lemma_newest_segment_ignores_order(first, second);
}

} // verus!
