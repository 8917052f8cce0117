//! Saving state: which changes are saved, when a checkpoint is due, what a
//! session boundary does with unsaved work, and the storage worker's messages.
use vstd::prelude::*;

use crate::session::{SessionId, SessionMetadata, SessionSnapshot, StoredSession};

verus! {

/// Checkpoints are written this many nanoseconds after the first unsaved change.
pub const CHECKPOINT_INTERVAL_NS: u64 = 30000000000;

/// How long shutdown waits for the storage worker, in nanoseconds.
pub const GRACEFUL_SHUTDOWN_TIMEOUT_NS: u64 = 3000000000;

/// The most sessions a listing holds.
pub const SESSION_LIST_LIMIT: u32 = 10000;

/// A count of changes; later changes have larger generations.
#[derive(Clone, Copy, Debug, Default, PartialEq, Eq, PartialOrd, Ord, Hash, Structural)]
pub struct DirtyGeneration(pub u64);

#[derive(Clone, Copy, Debug, PartialEq, Eq, Structural)]
pub enum StorageStatus {
    Loading,
    Unsaved,
    Saved,
    Dirty,
    Saving,
    Failed,
}

#[derive(Clone, Copy, Debug, PartialEq, Eq, Structural)]
pub enum DirtyTrackingError {
    /// Changes cannot be tracked while a session loads.
    NotReady,
    /// The change counter reached its maximum.
    GenerationOverflow,
    /// An acknowledgement named a generation that is not being saved.
    UnexpectedAcknowledgement { expected: Option<DirtyGeneration>, actual: DirtyGeneration },
}

/// Tracks which changes of the active session are saved.
#[derive(Debug)]
pub struct DirtyTracker {
    status: StorageStatus,
    current: DirtyGeneration,
    saved: DirtyGeneration,
    in_flight: Option<DirtyGeneration>,
}

/// The mathematical value of a [`DirtyTracker`]: its status, the latest
/// change, the latest saved change, and the change being saved.
pub struct TrackerView {
    pub status: StorageStatus,
    pub current: u64,
    pub saved: u64,
    pub in_flight: Option<u64>,
}

impl View for DirtyTracker {
    type V = TrackerView;

    closed spec fn view(&self) -> TrackerView {
        TrackerView {
            status: self.status,
            current: self.current.0,
            saved: self.saved.0,
            in_flight: match self.in_flight {
                Some(g) => Some(g.0),
                None => None,
            },
        }
    }
}

/// The tracker's invariant: saved changes never run ahead of the current
/// change, a save is in flight exactly while the status is saving, and it
/// saves a change newer than the saved one.
pub open spec fn tracker_wf(v: TrackerView) -> bool {
    &&& v.saved <= v.current
    &&& (v.in_flight is Some <==> v.status == StorageStatus::Saving)
    &&& v.in_flight matches Some(g) ==> v.saved < g <= v.current
    &&& v.status == StorageStatus::Saved ==> v.current == v.saved
    &&& v.status == StorageStatus::Dirty ==> v.current > v.saved
    &&& (v.status == StorageStatus::Loading || v.status == StorageStatus::Unsaved) ==> v.current == v.saved
}

/// A generation of the tracker's view, as the tracker reports it.
pub open spec fn generation_of(g: Option<u64>) -> Option<DirtyGeneration> {
    match g {
        Some(x) => Some(DirtyGeneration(x)),
        None => None,
    }
}

/// The session has changes that are not saved.
pub open spec fn dirty(v: TrackerView) -> bool {
    v.status == StorageStatus::Unsaved || v.current > v.saved
}

impl DirtyTracker {
    /// A session that has never been saved.
    pub fn new() -> (r: Self)
        ensures
            tracker_wf(r@),
            r@.status == StorageStatus::Unsaved,
            r@.current == 0 && r@.saved == 0 && r@.in_flight is None,
    {
        DirtyTracker {
            status: StorageStatus::Unsaved,
            current: DirtyGeneration(0),
            saved: DirtyGeneration(0),
            in_flight: None,
        }
    }

    /// A session is being loaded: nothing is tracked until it is loaded.
    pub fn begin_loading(&mut self)
        ensures
            tracker_wf(final(self)@),
            final(self)@.status == StorageStatus::Loading,
            final(self)@.current == 0 && final(self)@.saved == 0 && final(self)@.in_flight is None,
    {
        self.status = StorageStatus::Loading;
        self.current = DirtyGeneration(0);
        self.saved = DirtyGeneration(0);
        self.in_flight = None;
    }

    /// A session was loaded: saved when it came from storage, unsaved otherwise.
    pub fn loaded(&mut self, saved: bool)
        ensures
            tracker_wf(final(self)@),
            final(self)@.status == if saved {
                StorageStatus::Saved
            } else {
                StorageStatus::Unsaved
            },
            final(self)@.current == 0 && final(self)@.saved == 0 && final(self)@.in_flight is None,
    {
        self.status = if saved {
            StorageStatus::Saved
        } else {
            StorageStatus::Unsaved
        };
        self.current = DirtyGeneration(0);
        self.saved = DirtyGeneration(0);
        self.in_flight = None;
    }

    /// Storage failed: nothing is in flight any more.
    pub fn set_failed(&mut self)
        requires
            tracker_wf(old(self)@),
        ensures
            tracker_wf(final(self)@),
            final(self)@.status == StorageStatus::Failed,
            final(self)@.in_flight is None,
            final(self)@.current == old(self)@.current,
            final(self)@.saved == old(self)@.saved,
    {
        self.in_flight = None;
        self.status = StorageStatus::Failed;
    }

    pub fn status(&self) -> (r: StorageStatus)
        ensures
            r == self@.status,
    {
        self.status
    }

    pub fn saved_generation(&self) -> (r: DirtyGeneration)
        ensures
            r.0 == self@.saved,
    {
        self.saved
    }

    pub fn in_flight(&self) -> (r: Option<DirtyGeneration>)
        ensures
            match r {
                Some(g) => self@.in_flight == Some(g.0),
                None => self@.in_flight is None,
            },
    {
        self.in_flight
    }

    pub fn is_dirty(&self) -> (r: bool)
        ensures
            r == dirty(self@),
    {
        self.status == StorageStatus::Unsaved || self.current.0 > self.saved.0
    }

    /// Records a change and returns its generation.
    pub fn mark_dirty(&mut self) -> (r: Result<DirtyGeneration, DirtyTrackingError>)
        requires
            tracker_wf(old(self)@),
        ensures
            tracker_wf(final(self)@),
            old(self)@.status == StorageStatus::Loading ==> r == Err::<DirtyGeneration, DirtyTrackingError>(DirtyTrackingError::NotReady) && final(self)@ == old(self)@,
            old(self)@.status != StorageStatus::Loading && old(self)@.current == u64::MAX ==> r == Err::<DirtyGeneration, DirtyTrackingError>(DirtyTrackingError::GenerationOverflow) && final(self)@ == old(self)@,
            old(self)@.status != StorageStatus::Loading && old(self)@.current < u64::MAX ==> {
                &&& r == Ok::<DirtyGeneration, DirtyTrackingError>(DirtyGeneration((old(self)@.current + 1) as u64))
                &&& final(self)@.current == old(self)@.current + 1
                &&& final(self)@.saved == old(self)@.saved
                &&& final(self)@.in_flight == old(self)@.in_flight
                &&& final(self)@.status == if old(self)@.in_flight is None {
                    StorageStatus::Dirty
                } else {
                    old(self)@.status
                }
            },
    {
        if self.status == StorageStatus::Loading {
            return Err(DirtyTrackingError::NotReady);
        }
        self.current = next_generation(self.current)?;
        if self.in_flight.is_none() {
            self.status = StorageStatus::Dirty;
        }
        Ok(self.current)
    }

    /// Starts saving the latest change, when there is one to save and no
    /// save is in flight. A never-saved session is saved even without changes.
    pub fn begin_save(&mut self) -> (r: Result<Option<DirtyGeneration>, DirtyTrackingError>)
        requires
            tracker_wf(old(self)@),
        ensures
            tracker_wf(final(self)@),
            match r {
                Ok(Some(g)) => {
                    &&& old(self)@.status != StorageStatus::Loading
                    &&& old(self)@.in_flight is None
                    &&& g.0 == final(self)@.current
                    &&& final(self)@.in_flight == Some(g.0)
                    &&& final(self)@.status == StorageStatus::Saving
                    &&& final(self)@.saved == old(self)@.saved
                    &&& final(self)@.current == if old(self)@.status == StorageStatus::Unsaved {
                        old(self)@.current + 1
                    } else {
                        old(self)@.current as int
                    }
                },
                Ok(None) => final(self)@ == old(self)@ && (old(self)@.status == StorageStatus::Loading
                    || old(self)@.in_flight is Some || (old(self)@.status != StorageStatus::Unsaved
                    && old(self)@.current <= old(self)@.saved)),
                Err(e) => e == DirtyTrackingError::GenerationOverflow && old(self)@.status
                    == StorageStatus::Unsaved && old(self)@.in_flight is None && old(self)@.current
                    == u64::MAX && final(self)@ == old(self)@,
            },
            (old(self)@.status != StorageStatus::Loading && old(self)@.in_flight is None
                && dirty(old(self)@) && old(self)@.current < u64::MAX) ==> r is Ok && r->Ok_0 is Some,
    {
        if self.status == StorageStatus::Loading || self.in_flight.is_some() {
            return Ok(None);
        }
        if self.status == StorageStatus::Unsaved && self.current.0 == self.saved.0 {
            self.current = next_generation(self.current)?;
        }
        if self.current.0 <= self.saved.0 {
            return Ok(None);
        }
        let generation = self.current;
        self.in_flight = Some(generation);
        self.status = StorageStatus::Saving;
        Ok(Some(generation))
    }

    /// Starts saving the active session. Nothing starts while a save is in
    /// flight. A session without a saved ID whose last save failed or was
    /// acknowledged counts as changed, so it is saved again.
    pub fn begin_session_save(&mut self, has_session_id: bool) -> (r: Result<
        Option<DirtyGeneration>,
        DirtyTrackingError,
    >)
        requires
            tracker_wf(old(self)@),
        ensures
            tracker_wf(final(self)@),
            old(self)@.in_flight is Some ==> r == Ok::<Option<DirtyGeneration>, DirtyTrackingError>(
                None,
            ) && final(self)@ == old(self)@,
            r matches Ok(Some(g)) ==> old(self)@.in_flight is None && final(self)@.in_flight == Some(
                g.0,
            ) && final(self)@.status == StorageStatus::Saving && g.0 == final(self)@.current
                && final(self)@.saved == old(self)@.saved && final(self)@.current >= old(self)@.current,
            r matches Ok(None) ==> final(self)@.saved == old(self)@.saved && final(self)@.in_flight
                == old(self)@.in_flight,
            r matches Err(e) ==> e == DirtyTrackingError::GenerationOverflow,
            (old(self)@.in_flight is None && old(self)@.status != StorageStatus::Loading
                && old(self)@.current < u64::MAX - 1 && (dirty(old(self)@) || (!has_session_id && (
            old(self)@.status == StorageStatus::Failed || old(self)@.status
                == StorageStatus::Saved)))) ==> r matches Ok(Some(_)),
    {
        if self.in_flight.is_some() {
            return Ok(None);
        }
        if !has_session_id && (self.status == StorageStatus::Failed || self.status
            == StorageStatus::Saved) {
            let _ = self.mark_dirty();
        }
        self.begin_save()
    }

    /// The save of `generation` succeeded: it is now the saved change.
    pub fn acknowledge(&mut self, generation: DirtyGeneration) -> (r: Result<(), DirtyTrackingError>)
        requires
            tracker_wf(old(self)@),
        ensures
            tracker_wf(final(self)@),
            old(self)@.in_flight == Some(generation.0) ==> {
                &&& r is Ok
                &&& final(self)@.in_flight is None
                &&& final(self)@.saved == generation.0
                &&& final(self)@.current == old(self)@.current
                &&& final(self)@.status == if old(self)@.current > generation.0 {
                    StorageStatus::Dirty
                } else {
                    StorageStatus::Saved
                }
            },
            old(self)@.in_flight != Some(generation.0) ==> final(self)@ == old(self)@ && r
                == Err::<(), DirtyTrackingError>((DirtyTrackingError::UnexpectedAcknowledgement {
                expected: generation_of(old(self)@.in_flight),
                actual: generation,
            })),
    {
        self.require_in_flight(generation)?;
        self.in_flight = None;
        self.saved = generation;
        self.status = if self.current.0 > self.saved.0 {
            StorageStatus::Dirty
        } else {
            StorageStatus::Saved
        };
        Ok(())
    }


    /// The save of `generation` failed.
    pub fn fail(&mut self, generation: DirtyGeneration) -> (r: Result<(), DirtyTrackingError>)
        requires
            tracker_wf(old(self)@),
        ensures
            tracker_wf(final(self)@),
            old(self)@.in_flight == Some(generation.0) ==> r is Ok && final(self)@.in_flight is None
                && final(self)@.status == StorageStatus::Failed && final(self)@.current
                == old(self)@.current && final(self)@.saved == old(self)@.saved,
            old(self)@.in_flight != Some(generation.0) ==> final(self)@ == old(self)@ && r
                == Err::<(), DirtyTrackingError>((DirtyTrackingError::UnexpectedAcknowledgement {
                expected: generation_of(old(self)@.in_flight),
                actual: generation,
            })),
    {
        self.require_in_flight(generation)?;
        self.in_flight = None;
        self.status = StorageStatus::Failed;
        Ok(())
    }

    fn require_in_flight(&self, generation: DirtyGeneration) -> (r: Result<(), DirtyTrackingError>)
        ensures
            r is Ok <==> self@.in_flight == Some(generation.0),
            r matches Err(e) ==> e == (DirtyTrackingError::UnexpectedAcknowledgement {
                expected: generation_of(self@.in_flight),
                actual: generation,
            }),
    {
        match self.in_flight {
            Some(g) => if g.0 == generation.0 {
                Ok(())
            } else {
                Err(DirtyTrackingError::UnexpectedAcknowledgement { expected: self.in_flight, actual: generation })
            },
            None => Err(DirtyTrackingError::UnexpectedAcknowledgement { expected: None, actual: generation }),
        }
    }
}

/// The generation after `generation`.
pub fn next_generation(generation: DirtyGeneration) -> (r: Result<DirtyGeneration, DirtyTrackingError>)
    ensures
        generation.0 < u64::MAX ==> r == Ok::<DirtyGeneration, DirtyTrackingError>(DirtyGeneration((generation.0 + 1) as u64)),
        generation.0 == u64::MAX ==> r == Err::<DirtyGeneration, DirtyTrackingError>(DirtyTrackingError::GenerationOverflow),
{
    match generation.0.checked_add(1) {
        Some(g) => Ok(DirtyGeneration(g)),
        None => Err(DirtyTrackingError::GenerationOverflow),
    }
}

/// When the next automatic checkpoint is due, on a monotonic clock in nanoseconds.
#[derive(Clone, Copy, Debug, Default, PartialEq, Eq, Structural)]
pub struct CheckpointSchedule {
    deadline: Option<u64>,
}

impl View for CheckpointSchedule {
    type V = Option<u64>;

    closed spec fn view(&self) -> Option<u64> {
        self.deadline
    }
}

impl CheckpointSchedule {
    pub fn new() -> (r: Self)
        ensures
            r@ is None,
    {
        CheckpointSchedule { deadline: None }
    }

    /// A change at `now` schedules a checkpoint thirty seconds later, unless
    /// one is already scheduled: later changes do not postpone it.
    pub fn note_dirty(&mut self, now: u64)
        requires
            now + CHECKPOINT_INTERVAL_NS <= u64::MAX,
        ensures
            final(self)@ == match old(self)@ {
                Some(d) => Some(d),
                None => Some((now + CHECKPOINT_INTERVAL_NS) as u64),
            },
    {
        if self.deadline.is_none() {
            self.deadline = Some(now + CHECKPOINT_INTERVAL_NS);
        }
    }

    pub fn is_due(&self, now: u64) -> (r: bool)
        ensures
            r == checkpoint_due(self@, now),
    {
        match self.deadline {
            Some(d) => now >= d,
            None => false,
        }
    }

    /// The time left until the checkpoint, zero once it is due.
    pub fn time_until_due(&self, now: u64) -> (r: Option<u64>)
        ensures
            r == time_left(self@, now),
    {
        match self.deadline {
            Some(d) => Some(if d > now { d - now } else { 0 }),
            None => None,
        }
    }

    /// A save started: the checkpoint is no longer needed.
    pub fn save_started(&mut self)
        ensures
            final(self)@ is None,
    {
        self.deadline = None;
    }

    pub fn clear(&mut self)
        ensures
            final(self)@ is None,
    {
        self.deadline = None;
    }
}

/// A checkpoint scheduled for `deadline` is due at `now`.
pub open spec fn checkpoint_due(deadline: Option<u64>, now: u64) -> bool {
    deadline matches Some(d) && now >= d
}

/// The time left at `now` until the checkpoint scheduled for `deadline`, zero once due.
pub open spec fn time_left(deadline: Option<u64>, now: u64) -> Option<u64> {
    match deadline {
        Some(d) => Some(if d > now { (d - now) as u64 } else { 0 }),
        None => None,
    }
}

/// A checkpoint is due exactly when no time is left until it. Without a
/// scheduled checkpoint, as after a save started or a change was cleared,
/// nothing is due and no time is reported, and the next change at `later`
/// schedules one a full interval after it.
pub proof fn lemma_checkpoint_timing(deadline: Option<u64>, now: u64, later: u64)
    requires
        later + CHECKPOINT_INTERVAL_NS <= u64::MAX,
    ensures
        checkpoint_due(deadline, now) <==> time_left(deadline, now) == Some(0u64),
        deadline is None ==> !checkpoint_due(deadline, now) && time_left(deadline, now) is None,
        deadline is None ==> time_left(Some((later + CHECKPOINT_INTERVAL_NS) as u64), later)
            == Some(CHECKPOINT_INTERVAL_NS),
{
}

/// Whether an autosave boundary may proceed, must save first, or must ask.
#[derive(Clone, Copy, Debug, PartialEq, Eq, Structural)]
pub enum BoundaryPolicy {
    Proceed,
    Save,
    Prompt,
}

/// Decides what a session boundary (switch, new session, exit) does with unsaved work.
pub fn boundary_policy(dirty: bool, autosave: bool) -> (policy: BoundaryPolicy)
    ensures
        !dirty ==> policy == BoundaryPolicy::Proceed,
        dirty && autosave ==> policy == BoundaryPolicy::Save,
        dirty && !autosave ==> policy == BoundaryPolicy::Prompt,
{
    if !dirty {
        BoundaryPolicy::Proceed
    } else if autosave {
        BoundaryPolicy::Save
    } else {
        BoundaryPolicy::Prompt
    }
}

/// A request to save a snapshot as a generation.
#[derive(Debug)]
pub struct SaveRequest {
    pub generation: DirtyGeneration,
    pub snapshot: SessionSnapshot,
}

#[derive(Clone, Copy, Debug, PartialEq, Eq, Structural)]
pub enum StorageOperation {
    Open,
    Save,
    List,
    Load,
    Rename,
    Delete,
    DeleteAll,
    Maintenance,
    ShutdownSave,
}

/// A command for the storage worker.
#[derive(Debug)]
pub enum StorageCommand {
    RetryOpen { last_session_id: Option<SessionId> },
    Save(SaveRequest),
    ListSessions { request_id: u64 },
    LoadSession { request_id: u64, session_id: SessionId, opened_at_ms: i64 },
    DeleteSession { session_id: SessionId },
    DeleteAll,
    Shutdown { final_save: Option<SaveRequest> },
}

/// A storage operation that failed.
#[derive(Debug)]
pub struct StorageFailure {
    pub operation: StorageOperation,
    pub generation: Option<DirtyGeneration>,
    pub database_path: String,
    pub details: String,
}

/// What the storage worker reports.
#[derive(Debug)]
pub enum StorageEvent {
    Opened { sessions: Vec<SessionMetadata>, selected: Option<StoredSession> },
    Saved { generation: DirtyGeneration, session_id: SessionId },
    SessionsListed { request_id: u64, sessions: Vec<SessionMetadata> },
    SessionLoaded { request_id: u64, session: Option<StoredSession> },
    SessionDeleted { session_id: SessionId, deleted: bool },
    AllDeleted,
    Failed(StorageFailure),
    ShutdownComplete { final_generation: Option<DirtyGeneration>, final_save_succeeded: bool },
}

/// How the storage worker ended.
#[derive(Clone, Copy, Debug, PartialEq, Eq, Structural)]
pub struct ShutdownResult {
    pub final_generation: Option<DirtyGeneration>,
    pub final_save_succeeded: bool,
}

/// The status line shown for storage.
pub open spec fn status_label(status: StorageStatus, has_id: bool, failed: Option<StorageOperation>) -> Seq<char> {
    match status {
        StorageStatus::Loading => "Loading…"@,
        StorageStatus::Unsaved => "Not saved"@,
        StorageStatus::Saved => if has_id {
            "Saved"@
        } else {
            "Not saved"@
        },
        StorageStatus::Dirty => "Unsaved changes"@,
        StorageStatus::Saving => "Saving…"@,
        StorageStatus::Failed => match failed {
            Some(StorageOperation::Save) => "Save failed"@,
            Some(StorageOperation::ShutdownSave) => "Save failed"@,
            Some(StorageOperation::Open) => "Storage unavailable"@,
            Some(StorageOperation::Load) => "Load failed"@,
            Some(StorageOperation::Rename) => "Rename failed"@,
            Some(StorageOperation::Delete) => "Delete failed"@,
            Some(StorageOperation::DeleteAll) => "Delete all failed"@,
            Some(StorageOperation::List) => "Session list failed"@,
            Some(StorageOperation::Maintenance) => "Storage failed"@,
            None => "Storage failed"@,
        },
    }
}

/// The status line for storage, naming the operation that failed.
pub fn storage_status_label_for_operation(
    status: StorageStatus,
    has_id: bool,
    failed_operation: Option<StorageOperation>,
) -> (r: &'static str)
    ensures
        r@ == status_label(status, has_id, failed_operation),
{
    match status {
        StorageStatus::Loading => "Loading…",
        StorageStatus::Unsaved => "Not saved",
        StorageStatus::Saved => if has_id {
            "Saved"
        } else {
            "Not saved"
        },
        StorageStatus::Dirty => "Unsaved changes",
        StorageStatus::Saving => "Saving…",
        StorageStatus::Failed => match failed_operation {
            Some(StorageOperation::Save) => "Save failed",
            Some(StorageOperation::ShutdownSave) => "Save failed",
            Some(StorageOperation::Open) => "Storage unavailable",
            Some(StorageOperation::Load) => "Load failed",
            Some(StorageOperation::Rename) => "Rename failed",
            Some(StorageOperation::Delete) => "Delete failed",
            Some(StorageOperation::DeleteAll) => "Delete all failed",
            Some(StorageOperation::List) => "Session list failed",
            Some(StorageOperation::Maintenance) => "Storage failed",
            None => "Storage failed",
        },
    }
}

/// The status line for storage.
pub fn storage_status_label(status: StorageStatus, has_id: bool) -> (r: &'static str)
    ensures
        r@ == status_label(status, has_id, None),
{
    storage_status_label_for_operation(status, has_id, None)
}

/// What a failed operation means for the user.
pub open spec fn failure_message(operation: StorageOperation) -> Seq<char> {
    match operation {
        StorageOperation::Open => "evtap could not open local storage. In-memory capture remains available."@,
        StorageOperation::Save => "The active session could not be saved. Unsaved changes remain in memory."@,
        StorageOperation::ShutdownSave => "The active session could not be saved. Unsaved changes remain in memory."@,
        StorageOperation::List => "Saved session metadata could not be refreshed."@,
        StorageOperation::Load => "The selected session could not be loaded. The current session remains active."@,
        StorageOperation::Rename => "The session name could not be saved."@,
        StorageOperation::Delete => "The selected saved session could not be deleted."@,
        StorageOperation::DeleteAll => "Saved sessions could not be deleted."@,
        StorageOperation::Maintenance => "Local storage maintenance could not be completed."@,
    }
}

pub fn storage_failure_message(operation: StorageOperation) -> (r: &'static str)
    ensures
        r@ == failure_message(operation),
{
    match operation {
        StorageOperation::Open => "evtap could not open local storage. In-memory capture remains available.",
        StorageOperation::Save => "The active session could not be saved. Unsaved changes remain in memory.",
        StorageOperation::ShutdownSave => "The active session could not be saved. Unsaved changes remain in memory.",
        StorageOperation::List => "Saved session metadata could not be refreshed.",
        StorageOperation::Load => "The selected session could not be loaded. The current session remains active.",
        StorageOperation::Rename => "The session name could not be saved.",
        StorageOperation::Delete => "The selected saved session could not be deleted.",
        StorageOperation::DeleteAll => "Saved sessions could not be deleted.",
        StorageOperation::Maintenance => "Local storage maintenance could not be completed.",
    }
}

/// The heading of a failed operation.
pub open spec fn operation_label(operation: StorageOperation) -> Seq<char> {
    match operation {
        StorageOperation::Open => "Could not open session storage"@,
        StorageOperation::Save => "Could not save session"@,
        StorageOperation::List => "Could not list saved sessions"@,
        StorageOperation::Load => "Could not load session"@,
        StorageOperation::Rename => "Could not rename session"@,
        StorageOperation::Delete => "Could not delete session"@,
        StorageOperation::DeleteAll => "Could not delete saved sessions"@,
        StorageOperation::Maintenance => "Could not reclaim deleted storage"@,
        StorageOperation::ShutdownSave => "Could not save before shutdown"@,
    }
}

pub fn storage_operation_label(operation: StorageOperation) -> (r: &'static str)
    ensures
        r@ == operation_label(operation),
{
    match operation {
        StorageOperation::Open => "Could not open session storage",
        StorageOperation::Save => "Could not save session",
        StorageOperation::List => "Could not list saved sessions",
        StorageOperation::Load => "Could not load session",
        StorageOperation::Rename => "Could not rename session",
        StorageOperation::Delete => "Could not delete session",
        StorageOperation::DeleteAll => "Could not delete saved sessions",
        StorageOperation::Maintenance => "Could not reclaim deleted storage",
        StorageOperation::ShutdownSave => "Could not save before shutdown",
    }
}

/// The files a database occupies: itself and its write-ahead log, shared
/// memory and rollback journal sidecars.
pub open spec fn database_files_of(path: Seq<char>) -> Seq<Seq<char>> {
    seq![path, path + "-wal"@, path + "-shm"@, path + "-journal"@]
}

pub fn database_files(path: &str) -> (r: Vec<String>)
    ensures
        r@.map_values(|f: String| f@) == database_files_of(path@),
{
    let mut files: Vec<String> = Vec::new();
    files.push(path.to_string());
    let mut wal = path.to_string();
    crate::text::append_str(&mut wal, "-wal");
    files.push(wal);
    let mut shm = path.to_string();
    crate::text::append_str(&mut shm, "-shm");
    files.push(shm);
    let mut journal = path.to_string();
    crate::text::append_str(&mut journal, "-journal");
    files.push(journal);
    assert(files@.map_values(|f: String| f@) =~= database_files_of(path@));
    files
}

} // verus!
