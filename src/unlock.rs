//! Reclaiming stale locks of a queue directory, one role after another, and
//! stopping at the first lock that cannot be reclaimed. The caller performs
//! each action (reading the lock file and inspecting it, removing it) and
//! reports back with an event.
use vstd::prelude::*;

use crate::error::RecoveryError;
use crate::lock::{lock_owner_spec, lock_verdict};

verus! {

/// The two exclusive roles of a queue, each with a lock file.
#[derive(Clone, Copy, Debug, PartialEq, Eq, Structural)]
pub enum Role {
    Send,
    Recv,
}

/// The name of a role's lock file inside the queue directory.
pub fn lock_file_name(role: Role) -> (r: &'static str)
    ensures
        role == Role::Send ==> r@ == "send.lock"@,
        role == Role::Recv ==> r@ == "recv.lock"@,
{
    match role {
        Role::Send => "send.lock",
        Role::Recv => "recv.lock",
    }
}

/// What the caller is asked to do next.
#[derive(Clone, Copy, Debug, PartialEq, Eq)]
pub enum UnlockAction {
    /// Read the role's lock file and pass its contents to `inspect_lock`.
    InspectLock(Role),
    /// Remove the role's lock file.
    RemoveLock(Role),
    /// Stop with this result.
    Finish(Result<(), RecoveryError>),
}

/// What the caller reports after an action.
#[derive(Clone, Copy, Debug, PartialEq, Eq)]
pub enum UnlockEvent {
    /// The result of `inspect_lock` on the lock file.
    Inspected(Result<i32, RecoveryError>),
    /// The lock file was removed.
    Removed,
    /// The action failed on the file system (the file is absent, say); the
    /// caller keeps the error.
    Failed,
}

#[derive(Clone, Copy, Debug, PartialEq, Eq)]
pub enum UnlockStage {
    /// Waiting for the inspection of the lock of `roles[i]`.
    Inspecting(usize),
    /// Waiting for the removal of the lock of `roles[i]`.
    Removing(usize),
    Finished(Result<(), RecoveryError>),
}

/// The next stage and action after `event`, for the roles `roles`, from
/// `stage`. An event that answers no pending action leaves the stage as it is
/// and asks for that action again.
pub open spec fn unlock_next(roles: Seq<Role>, stage: UnlockStage, event: UnlockEvent) -> (
    UnlockStage,
    UnlockAction,
) {
    match stage {
        UnlockStage::Finished(o) => (stage, UnlockAction::Finish(o)),
        UnlockStage::Inspecting(i) => match event {
            UnlockEvent::Inspected(Ok(_)) => (
                UnlockStage::Removing(i),
                UnlockAction::RemoveLock(roles[i as int]),
            ),
            UnlockEvent::Inspected(Err(e)) => (
                UnlockStage::Finished(Err(e)),
                UnlockAction::Finish(Err(e)),
            ),
            UnlockEvent::Failed => (
                UnlockStage::Finished(Err(RecoveryError::Io)),
                UnlockAction::Finish(Err(RecoveryError::Io)),
            ),
            UnlockEvent::Removed => (stage, UnlockAction::InspectLock(roles[i as int])),
        },
        UnlockStage::Removing(i) => match event {
            UnlockEvent::Removed => if i + 1 < roles.len() {
                (
                    UnlockStage::Inspecting((i + 1) as usize),
                    UnlockAction::InspectLock(roles[i + 1]),
                )
            } else {
                (UnlockStage::Finished(Ok(())), UnlockAction::Finish(Ok(())))
            },
            UnlockEvent::Failed => (
                UnlockStage::Finished(Err(RecoveryError::Io)),
                UnlockAction::Finish(Err(RecoveryError::Io)),
            ),
            UnlockEvent::Inspected(_) => (stage, UnlockAction::RemoveLock(roles[i as int])),
        },
    }
}

/// The actions that answer a sequence of events, from `stage`.
pub open spec fn unlock_run(roles: Seq<Role>, stage: UnlockStage, events: Seq<UnlockEvent>) -> Seq<
    UnlockAction,
>
    decreases events.len(),
{
    if events.len() == 0 {
        Seq::empty()
    } else {
        let (next, action) = unlock_next(roles, stage, events[0]);
        seq![action] + unlock_run(roles, next, events.drop_first())
    }
}

pub open spec fn stage_in_range(roles: Seq<Role>, stage: UnlockStage) -> bool {
    match stage {
        UnlockStage::Inspecting(i) => i < roles.len(),
        UnlockStage::Removing(i) => i < roles.len(),
        UnlockStage::Finished(_) => true,
    }
}

/// The locks of a queue directory being reclaimed, in order.
pub struct Unlocking {
    pub roles: Vec<Role>,
    pub stage: UnlockStage,
}

impl Unlocking {
    pub open spec fn wf(&self) -> bool {
        self.roles@.len() > 0 && stage_in_range(self.roles@, self.stage)
    }

    /// Reclaiming the locks of `roles`, in that order, starting with the
    /// inspection of the first.
    pub fn new(roles: Vec<Role>) -> (r: (Unlocking, UnlockAction))
        requires
            roles@.len() > 0,
        ensures
            r.0.wf(),
            r.0.roles@ == roles@,
            r.0.stage == UnlockStage::Inspecting(0),
            r.1 == UnlockAction::InspectLock(roles@[0]),
    {
        let first = roles[0];
        (Unlocking { roles, stage: UnlockStage::Inspecting(0) }, UnlockAction::InspectLock(first))
    }

    /// Advances by one event and says what to do next.
    pub fn step(&mut self, event: UnlockEvent) -> (r: UnlockAction)
        requires
            old(self).wf(),
        ensures
            final(self).wf(),
            final(self).roles@ == old(self).roles@,
            (final(self).stage, r) == unlock_next(old(self).roles@, old(self).stage, event),
    {
        assert(stage_in_range(self.roles@, self.stage));
        match self.stage {
            UnlockStage::Finished(o) => UnlockAction::Finish(o),
            UnlockStage::Inspecting(i) => match event {
                UnlockEvent::Inspected(Ok(_)) => {
                    self.stage = UnlockStage::Removing(i);
                    UnlockAction::RemoveLock(self.roles[i])
                },
                UnlockEvent::Inspected(Err(e)) => {
                    self.stage = UnlockStage::Finished(Err(e));
                    UnlockAction::Finish(Err(e))
                },
                UnlockEvent::Failed => {
                    self.stage = UnlockStage::Finished(Err(RecoveryError::Io));
                    UnlockAction::Finish(Err(RecoveryError::Io))
                },
                UnlockEvent::Removed => UnlockAction::InspectLock(self.roles[i]),
            },
            UnlockStage::Removing(i) => match event {
                UnlockEvent::Removed => if i < self.roles.len() - 1 {
                    self.stage = UnlockStage::Inspecting(i + 1);
                    UnlockAction::InspectLock(self.roles[i + 1])
                } else {
                    self.stage = UnlockStage::Finished(Ok(()));
                    UnlockAction::Finish(Ok(()))
                },
                UnlockEvent::Failed => {
                    self.stage = UnlockStage::Finished(Err(RecoveryError::Io));
                    UnlockAction::Finish(Err(RecoveryError::Io))
                },
                UnlockEvent::Inspected(_) => UnlockAction::RemoveLock(self.roles[i]),
            },
        }
    }
}

/// Reclaiming the send lock.
pub fn unlock_for_sending() -> (r: (Unlocking, UnlockAction))
    ensures
        r.0.wf(),
        r.0.roles@ == seq![Role::Send],
        r.0.stage == UnlockStage::Inspecting(0),
        r.1 == UnlockAction::InspectLock(Role::Send),
{
    Unlocking::new(vec![Role::Send])
}

/// Reclaiming the receive lock.
pub fn unlock_for_receiving() -> (r: (Unlocking, UnlockAction))
    ensures
        r.0.wf(),
        r.0.roles@ == seq![Role::Recv],
        r.0.stage == UnlockStage::Inspecting(0),
        r.1 == UnlockAction::InspectLock(Role::Recv),
{
    Unlocking::new(vec![Role::Recv])
}

/// Reclaiming both locks: the send lock first, then the receive lock, which
/// is not touched when the send lock cannot be reclaimed.
pub fn unlock_queue() -> (r: (Unlocking, UnlockAction))
    ensures
        r.0.wf(),
        r.0.roles@ == seq![Role::Send, Role::Recv],
        r.0.stage == UnlockStage::Inspecting(0),
        r.1 == UnlockAction::InspectLock(Role::Send),
{
    Unlocking::new(vec![Role::Send, Role::Recv])
}

/// Once finished, every further event is answered with the same result.
pub proof fn lemma_finished_stays(roles: Seq<Role>, o: Result<(), RecoveryError>, events: Seq<UnlockEvent>)
    ensures
        unlock_run(roles, UnlockStage::Finished(o), events).len() == events.len(),
        forall|k: int|
            0 <= k < events.len() ==> #[trigger] unlock_run(roles, UnlockStage::Finished(o), events)[k]
                == UnlockAction::Finish(o),
    decreases events.len(),
{
    if events.len() > 0 {
        lemma_finished_stays(roles, o, events.drop_first());
        let rest = unlock_run(roles, UnlockStage::Finished(o), events.drop_first());
        assert forall|k: int| 0 <= k < events.len() implies #[trigger] unlock_run(roles, UnlockStage::Finished(o), events)[k]
            == UnlockAction::Finish(o) by {
            if k > 0 {
                assert(rest[k - 1] == UnlockAction::Finish(o));
            }
        }
    }
}

/// A lock whose owner is not running is removed, and reclaiming it succeeds.
pub proof fn lemma_stale_lock_is_removed(role: Role, contents: Seq<u8>)
    requires
        lock_owner_spec(contents) is Some,
    ensures
        unlock_run(
            seq![role],
            UnlockStage::Inspecting(0),
            seq![UnlockEvent::Inspected(lock_verdict(contents, false)), UnlockEvent::Removed],
        ) == seq![UnlockAction::RemoveLock(role), UnlockAction::Finish(Ok(()))],
{
    let events = seq![UnlockEvent::Inspected(lock_verdict(contents, false)), UnlockEvent::Removed];
    let roles = seq![role];
    assert(events.drop_first().drop_first() =~= Seq::<UnlockEvent>::empty());
    assert(events.drop_first()[0] == UnlockEvent::Removed);
    assert(unlock_run(roles, UnlockStage::Finished(Ok(())), Seq::<UnlockEvent>::empty()) =~= Seq::<
        UnlockAction,
    >::empty());
    assert(unlock_run(roles, UnlockStage::Removing(0), events.drop_first()) =~= seq![
        UnlockAction::Finish(Ok(())),
    ]);
    assert(unlock_run(roles, UnlockStage::Inspecting(0), events) =~= seq![
        UnlockAction::RemoveLock(role),
        UnlockAction::Finish(Ok(())),
    ]);
}

/// A lock whose owner is running is never removed, whatever follows, and the
/// result names the owner.
pub proof fn lemma_live_lock_is_kept(role: Role, contents: Seq<u8>, later: Seq<UnlockEvent>)
    requires
        lock_owner_spec(contents) is Some,
    ensures
        ({
            let run = unlock_run(
                seq![role],
                UnlockStage::Inspecting(0),
                seq![UnlockEvent::Inspected(lock_verdict(contents, true))] + later,
            );
            let owner = lock_owner_spec(contents)->0;
            &&& run.len() == later.len() + 1
            &&& forall|k: int|
                0 <= k < run.len() ==> #[trigger] run[k] == UnlockAction::Finish(
                    Err(RecoveryError::StillLocked { owner }),
                )
        }),
{
    let events = seq![UnlockEvent::Inspected(lock_verdict(contents, true))] + later;
    let owner = lock_owner_spec(contents)->0;
    let o = Err::<(), RecoveryError>(RecoveryError::StillLocked { owner });
    assert(events.drop_first() =~= later);
    lemma_finished_stays(seq![role], o, later);
    let run = unlock_run(seq![role], UnlockStage::Inspecting(0), events);
    let rest = unlock_run(seq![role], UnlockStage::Finished(o), later);
    assert forall|k: int| 0 <= k < run.len() implies #[trigger] run[k] == UnlockAction::Finish(o) by {
        if k > 0 {
            assert(rest[k - 1] == UnlockAction::Finish(o));
        }
    }
}

/// With both locks stale, reclaiming the queue removes the send lock, then
/// the receive lock, and succeeds.
pub proof fn lemma_queue_both_stale(send: Seq<u8>, recv: Seq<u8>)
    requires
        lock_owner_spec(send) is Some,
        lock_owner_spec(recv) is Some,
    ensures
        unlock_run(
            seq![Role::Send, Role::Recv],
            UnlockStage::Inspecting(0),
            seq![
                UnlockEvent::Inspected(lock_verdict(send, false)),
                UnlockEvent::Removed,
                UnlockEvent::Inspected(lock_verdict(recv, false)),
                UnlockEvent::Removed,
            ],
        ) == seq![
            UnlockAction::RemoveLock(Role::Send),
            UnlockAction::InspectLock(Role::Recv),
            UnlockAction::RemoveLock(Role::Recv),
            UnlockAction::Finish(Ok(())),
        ],
{
    let roles = seq![Role::Send, Role::Recv];
    let e = seq![
        UnlockEvent::Inspected(lock_verdict(send, false)),
        UnlockEvent::Removed,
        UnlockEvent::Inspected(lock_verdict(recv, false)),
        UnlockEvent::Removed,
    ];
    let e1 = e.drop_first();
    let e2 = e1.drop_first();
    let e3 = e2.drop_first();
    assert(e3.drop_first() =~= Seq::<UnlockEvent>::empty());
    assert(e1[0] == UnlockEvent::Removed);
    assert(e2[0] == UnlockEvent::Inspected(lock_verdict(recv, false)));
    assert(e3[0] == UnlockEvent::Removed);
    assert(unlock_run(roles, UnlockStage::Finished(Ok(())), e3.drop_first()) =~= Seq::<
        UnlockAction,
    >::empty());
    assert(unlock_run(roles, UnlockStage::Removing(1), e3) =~= seq![UnlockAction::Finish(Ok(()))]);
    assert(unlock_run(roles, UnlockStage::Inspecting(1), e2) =~= seq![
        UnlockAction::RemoveLock(Role::Recv),
        UnlockAction::Finish(Ok(())),
    ]);
    assert(unlock_run(roles, UnlockStage::Removing(0), e1) =~= seq![
        UnlockAction::InspectLock(Role::Recv),
        UnlockAction::RemoveLock(Role::Recv),
        UnlockAction::Finish(Ok(())),
    ]);
    assert(unlock_run(roles, UnlockStage::Inspecting(0), e) =~= seq![
        UnlockAction::RemoveLock(Role::Send),
        UnlockAction::InspectLock(Role::Recv),
        UnlockAction::RemoveLock(Role::Recv),
        UnlockAction::Finish(Ok(())),
    ]);
}

/// When the send lock is still held, reclaiming the queue stops at once:
/// neither lock is removed and the receive lock is not even inspected,
/// whatever follows.
pub proof fn lemma_queue_fails_fast(send: Seq<u8>, later: Seq<UnlockEvent>)
    requires
        lock_owner_spec(send) is Some,
    ensures
        ({
            let run = unlock_run(
                seq![Role::Send, Role::Recv],
                UnlockStage::Inspecting(0),
                seq![UnlockEvent::Inspected(lock_verdict(send, true))] + later,
            );
            forall|k: int|
                0 <= k < run.len() ==> !(#[trigger] run[k] is RemoveLock) && !(run[k] is InspectLock)
        }),
{
    let roles = seq![Role::Send, Role::Recv];
    let events = seq![UnlockEvent::Inspected(lock_verdict(send, true))] + later;
    let owner = lock_owner_spec(send)->0;
    let o = Err::<(), RecoveryError>(RecoveryError::StillLocked { owner });
    assert(events.drop_first() =~= later);
    lemma_finished_stays(roles, o, later);
    let run = unlock_run(roles, UnlockStage::Inspecting(0), events);
    let rest = unlock_run(roles, UnlockStage::Finished(o), later);
    assert forall|k: int| 0 <= k < run.len() implies !(#[trigger] run[k] is RemoveLock) && !(
    run[k] is InspectLock) by {
        if k > 0 {
            assert(rest[k - 1] == UnlockAction::Finish(o));
        }
    }
}

} // verus!
