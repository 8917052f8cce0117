//! The storage side of the application as a state machine: which requests are
//! awaited, what each storage reply does to the saving state of the working
//! session, when a save starts, and what the application must do next.
use vstd::prelude::*;

use crate::session::{SessionId, SessionMetadata, StoredSession};
use crate::storage::{
    boundary_policy, dirty, tracker_wf, BoundaryPolicy, DirtyGeneration, DirtyTracker,
    StorageEvent, StorageOperation, StorageStatus, TrackerView,
};

verus! {

/// Where a session boundary leads: a new session, a saved one, or the end of the program.
#[derive(Clone, Copy, Debug, PartialEq, Eq, Structural)]
pub enum BoundaryTarget {
    New,
    Load(SessionId),
    Exit,
}

/// What the application must do after a storage reply, in order.
#[derive(Debug)]
pub enum StorageAction {
    /// Make the stored session the working session, paused.
    Restore(StoredSession),
    /// Replace the working session by a new untitled one and clear the checkpoint.
    StartUntitled,
    /// Write the settings, whose last session ID has changed.
    SaveSettings,
    /// Ask the storage worker for the session lists again.
    RefreshLists,
    /// Schedule an automatic checkpoint for the change just recorded.
    ScheduleCheckpoint,
    /// Save again, then cross the boundary.
    SaveThen(BoundaryTarget),
    /// Cross the boundary now.
    Cross(BoundaryTarget),
}

/// How a save request went.
#[derive(Clone, Copy, Debug, PartialEq, Eq, Structural)]
pub enum SaveStart {
    /// The storage disclosure has not been acknowledged: ask first.
    NeedsDisclosure,
    /// A save is in flight; the boundary, if any, waits for it.
    Deferred,
    /// Nothing to save; the boundary, if any, is crossed now.
    Proceed(Option<BoundaryTarget>),
    /// Take a snapshot and save it as this generation.
    Save(DirtyGeneration),
    /// The change counter is exhausted; the save failure is shown.
    Refused,
}

/// The storage state of the application.
#[derive(Debug)]
pub struct StorageState {
    /// Which changes of the working session are saved.
    pub tracker: DirtyTracker,
    /// The saved ID of the working session.
    pub working_id: Option<SessionId>,
    /// The session the settings remember as the last one.
    pub last_session_id: Option<SessionId>,
    pub autosave: bool,
    pub disclosure_acknowledged: bool,
    /// Saved sessions, most recently opened first.
    pub sessions: Vec<SessionMetadata>,
    /// Saved sessions as the management view lists them.
    pub managed_sessions: Vec<SessionMetadata>,
    pub initial_open_handled: bool,
    pub list_request_id: Option<u64>,
    pub manage_request_id: Option<u64>,
    pub manage_loading: bool,
    pub next_list_request_id: u64,
    pub load_request_id: u64,
    pub loading_session: bool,
    pub deleting_session: bool,
    pub deleting_all: bool,
    /// The boundary to cross once the save in flight is acknowledged.
    pub pending_after_save: Option<BoundaryTarget>,
    /// The operation whose failure is shown.
    pub failure: Option<StorageOperation>,
}

/// The tracker of a session just loaded: saved when it came from storage.
pub open spec fn fresh_tracker(saved: bool) -> TrackerView {
    TrackerView {
        status: if saved {
            StorageStatus::Saved
        } else {
            StorageStatus::Unsaved
        },
        current: 0,
        saved: 0,
        in_flight: None,
    }
}

/// The tracker after the save of `g` was acknowledged.
pub open spec fn acknowledged(v: TrackerView, g: u64) -> TrackerView {
    TrackerView {
        status: if v.current > g {
            StorageStatus::Dirty
        } else {
            StorageStatus::Saved
        },
        current: v.current,
        saved: g,
        in_flight: None,
    }
}

/// The tracker after storage failed.
pub open spec fn failed(v: TrackerView) -> TrackerView {
    TrackerView { status: StorageStatus::Failed, current: v.current, saved: v.saved, in_flight: None }
}

/// The shown failure once `op` succeeded: cleared when it was that operation's.
pub open spec fn cleared(f: Option<StorageOperation>, op: StorageOperation) -> Option<StorageOperation> {
    if f == Some(op) {
        None
    } else {
        f
    }
}

/// The request counter after one more request, wrapping at its maximum.
pub open spec fn next_id(id: u64) -> u64 {
    if id == u64::MAX {
        0
    } else {
        (id + 1) as u64
    }
}

/// No request was issued or answered.
pub open spec fn same_requests(a: StorageState, b: StorageState) -> bool {
    &&& a.list_request_id == b.list_request_id
    &&& a.manage_request_id == b.manage_request_id
    &&& a.manage_loading == b.manage_loading
    &&& a.next_list_request_id == b.next_list_request_id
    &&& a.load_request_id == b.load_request_id
    &&& a.loading_session == b.loading_session
    &&& a.deleting_session == b.deleting_session
    &&& a.deleting_all == b.deleting_all
}

/// The preferences are unchanged.
pub open spec fn same_settings(a: StorageState, b: StorageState) -> bool {
    a.autosave == b.autosave && a.disclosure_acknowledged == b.disclosure_acknowledged
}

/// Both session lists are unchanged.
pub open spec fn same_lists(a: StorageState, b: StorageState) -> bool {
    a.sessions@ == b.sessions@ && a.managed_sessions@ == b.managed_sessions@
}

/// The working session, its saving state and the remembered session are unchanged.
pub open spec fn same_working(a: StorageState, b: StorageState) -> bool {
    a.working_id == b.working_id && a.tracker@ == b.tracker@ && a.last_session_id == b.last_session_id
}

/// A new untitled session replaced the working one.
pub open spec fn untitled_started(s: StorageState) -> bool {
    s.working_id is None && s.last_session_id is None && s.tracker@ == fresh_tracker(false)
}

/// A reply to a request that is no longer awaited, or one that asks for nothing.
pub open spec fn stale_response(s: StorageState, e: StorageEvent) -> bool {
    match e {
        StorageEvent::SessionsListed { request_id, .. } => s.list_request_id != Some(request_id)
            && s.manage_request_id != Some(request_id),
        StorageEvent::SessionLoaded { request_id, .. } => s.load_request_id != request_id,
        StorageEvent::ShutdownComplete { .. } => true,
        _ => false,
    }
}

/// The working session has changes that a boundary would drop: a saved session
/// with unsaved changes, or an unsaved one that holds data.
pub open spec fn working_dirty_spec(s: StorageState, has_content: bool) -> bool {
    if s.working_id is Some {
        dirty(s.tracker@)
    } else {
        has_content
    }
}

fn is_id(id: Option<SessionId>, other: SessionId) -> (r: bool)
    ensures
        r == (id == Some(other)),
{
    match id {
        Some(i) => i == other,
        None => false,
    }
}

fn clear_failure(f: Option<StorageOperation>, op: StorageOperation) -> (r: Option<StorageOperation>)
    ensures
        r == cleared(f, op),
{
    match f {
        Some(o) => if o == op {
            None
        } else {
            f
        },
        None => None,
    }
}

fn bump(id: u64) -> (r: u64)
    ensures
        r == next_id(id),
{
    if id == u64::MAX {
        0
    } else {
        id + 1
    }
}

impl StorageState {
    pub open spec fn wf(&self) -> bool {
        tracker_wf(self.tracker@)
    }

    /// The state at start-up: storage is opening, nothing is awaited.
    pub fn new(last_session_id: Option<SessionId>, autosave: bool, disclosure_acknowledged: bool) -> (r: Self)
        ensures
            r.wf(),
            r.tracker@ == (TrackerView { status: StorageStatus::Loading, current: 0, saved: 0, in_flight: None }),
            r.working_id is None,
            r.last_session_id == last_session_id,
            r.autosave == autosave,
            r.disclosure_acknowledged == disclosure_acknowledged,
            r.sessions@.len() == 0 && r.managed_sessions@.len() == 0,
            !r.initial_open_handled,
            r.list_request_id is None && r.manage_request_id is None && !r.manage_loading,
            r.next_list_request_id == 0 && r.load_request_id == 0,
            !r.loading_session && !r.deleting_session && !r.deleting_all,
            r.pending_after_save is None && r.failure is None,
    {
        let mut tracker = DirtyTracker::new();
        tracker.begin_loading();
        StorageState {
            tracker,
            working_id: None,
            last_session_id,
            autosave,
            disclosure_acknowledged,
            sessions: Vec::new(),
            managed_sessions: Vec::new(),
            initial_open_handled: false,
            list_request_id: None,
            manage_request_id: None,
            manage_loading: false,
            next_list_request_id: 0,
            load_request_id: 0,
            loading_session: false,
            deleting_session: false,
            deleting_all: false,
            pending_after_save: None,
            failure: None,
        }
    }

    /// Whether a boundary would drop changes.
    pub fn working_dirty(&self, has_content: bool) -> (r: bool)
        requires
            self.wf(),
        ensures
            r == working_dirty_spec(*self, has_content),
    {
        match self.working_id {
            Some(_) => self.tracker.is_dirty(),
            None => has_content,
        }
    }

    /// What a boundary does with the working session: go on, save first, or ask.
    pub fn boundary(&self, has_content: bool) -> (r: BoundaryPolicy)
        requires
            self.wf(),
        ensures
            !working_dirty_spec(*self, has_content) ==> r == BoundaryPolicy::Proceed,
            working_dirty_spec(*self, has_content) && self.autosave ==> r == BoundaryPolicy::Save,
            working_dirty_spec(*self, has_content) && !self.autosave ==> r == BoundaryPolicy::Prompt,
    {
        boundary_policy(self.working_dirty(has_content), self.autosave)
    }
}

/// Records a change of the working session. Returns whether a checkpoint is to
/// be scheduled; a change that cannot be counted shows the save failure.
pub fn note_session_dirty(state: &mut StorageState) -> (schedule: bool)
    requires
        old(state).wf(),
    ensures
        final(state).wf(),
        same_requests(*final(state), *old(state)),
        same_settings(*final(state), *old(state)),
        same_lists(*final(state), *old(state)),
        final(state).working_id == old(state).working_id,
        final(state).last_session_id == old(state).last_session_id,
        final(state).initial_open_handled == old(state).initial_open_handled,
        final(state).pending_after_save == old(state).pending_after_save,
        old(state).tracker@.status != StorageStatus::Loading && old(state).tracker@.current < u64::MAX ==> {
            &&& final(state).tracker@.current == old(state).tracker@.current + 1
            &&& final(state).tracker@.saved == old(state).tracker@.saved
            &&& final(state).tracker@.in_flight == old(state).tracker@.in_flight
            &&& final(state).tracker@.status == if old(state).tracker@.in_flight is None {
                StorageStatus::Dirty
            } else {
                old(state).tracker@.status
            }
            &&& final(state).failure == old(state).failure
            &&& schedule == old(state).autosave
        },
        !(old(state).tracker@.status != StorageStatus::Loading && old(state).tracker@.current < u64::MAX) ==> {
            &&& final(state).tracker@ == old(state).tracker@
            &&& final(state).failure == Some(StorageOperation::Save)
            &&& !schedule
        },
{
    match state.tracker.mark_dirty() {
        Ok(_) => state.autosave,
        Err(_) => {
            state.failure = Some(StorageOperation::Save);
            false
        },
    }
}

fn start_untitled(state: &mut StorageState)
    ensures
        untitled_started(*final(state)),
        final(state).wf(),
        same_requests(*final(state), *old(state)),
        same_settings(*final(state), *old(state)),
        same_lists(*final(state), *old(state)),
        final(state).initial_open_handled == old(state).initial_open_handled,
        final(state).pending_after_save == old(state).pending_after_save,
        final(state).failure == old(state).failure,
{
    state.working_id = None;
    state.last_session_id = None;
    state.tracker.loaded(false);
}

/// Crosses into a new untitled session: the working session has no saved ID,
/// the settings forget the last session, and no boundary waits for a save.
pub fn begin_new_session(state: &mut StorageState)
    ensures
        untitled_started(*final(state)),
        final(state).wf(),
        final(state).pending_after_save is None,
        final(state).failure == old(state).failure,
        final(state).initial_open_handled == old(state).initial_open_handled,
        same_requests(*final(state), *old(state)),
        same_settings(*final(state), *old(state)),
        same_lists(*final(state), *old(state)),
{
    start_untitled(state);
    state.pending_after_save = None;
}

/// What a storage reply does. `has_content` tells whether the working session
/// holds data. A reply to a request no longer awaited changes nothing.
#[verifier::rlimit(40)]
pub fn apply_storage_event(state: &mut StorageState, event: StorageEvent, has_content: bool) -> (actions: Vec<StorageAction>)
    requires
        old(state).wf(),
    ensures
        final(state).wf(),
        same_settings(*final(state), *old(state)),
        stale_response(*old(state), event) ==> *final(state) == *old(state) && actions@.len() == 0,
        event matches StorageEvent::Opened { sessions, selected } ==> {
            &&& final(state).sessions@ == sessions@
            &&& final(state).managed_sessions@ == old(state).managed_sessions@
            &&& final(state).initial_open_handled
            &&& final(state).failure == cleared(old(state).failure, StorageOperation::Open)
            &&& same_requests(*final(state), *old(state))
            &&& final(state).pending_after_save == old(state).pending_after_save
            &&& !old(state).initial_open_handled ==> match selected {
                Some(s) => {
                    &&& final(state).working_id == Some(s.metadata.id)
                    &&& final(state).tracker@ == fresh_tracker(true)
                    &&& final(state).last_session_id == old(state).last_session_id
                    &&& actions@ == seq![StorageAction::Restore(s)]
                },
                None => {
                    &&& final(state).working_id == old(state).working_id
                    &&& final(state).tracker@ == fresh_tracker(false)
                    &&& final(state).last_session_id is None
                    &&& actions@ == if old(state).last_session_id is Some {
                        seq![StorageAction::SaveSettings]
                    } else {
                        Seq::<StorageAction>::empty()
                    }
                },
            }
            &&& old(state).initial_open_handled ==> {
                &&& final(state).working_id == old(state).working_id
                &&& final(state).last_session_id == old(state).last_session_id
                &&& if old(state).working_id is None && has_content {
                    &&& final(state).tracker@ == (TrackerView { status: StorageStatus::Dirty, current: 1, saved: 0, in_flight: None })
                    &&& actions@ == if old(state).autosave {
                        seq![StorageAction::ScheduleCheckpoint]
                    } else {
                        Seq::<StorageAction>::empty()
                    }
                } else {
                    &&& final(state).tracker@ == fresh_tracker(old(state).working_id is Some)
                    &&& actions@.len() == 0
                }
            }
        },
        event matches StorageEvent::Saved { generation, session_id } ==> {
            &&& final(state).working_id == Some(session_id)
            &&& same_requests(*final(state), *old(state))
            &&& same_lists(*final(state), *old(state))
            &&& final(state).initial_open_handled == old(state).initial_open_handled
            &&& old(state).tracker@.in_flight == Some(generation.0) ==> {
                &&& final(state).tracker@ == acknowledged(old(state).tracker@, generation.0)
                &&& final(state).last_session_id == Some(session_id)
                &&& final(state).failure == cleared(cleared(old(state).failure, StorageOperation::Save), StorageOperation::ShutdownSave)
                &&& if dirty(final(state).tracker@) {
                    &&& final(state).pending_after_save == old(state).pending_after_save
                    &&& actions@ == seq![StorageAction::SaveSettings, StorageAction::RefreshLists] + match old(state).pending_after_save {
                        Some(t) => seq![StorageAction::SaveThen(t)],
                        None => Seq::<StorageAction>::empty(),
                    }
                } else {
                    &&& final(state).pending_after_save is None
                    &&& actions@ == seq![StorageAction::SaveSettings, StorageAction::RefreshLists] + match old(state).pending_after_save {
                        Some(t) => seq![StorageAction::Cross(t)],
                        None => Seq::<StorageAction>::empty(),
                    }
                }
            }
            &&& old(state).tracker@.in_flight != Some(generation.0) ==> {
                &&& final(state).tracker@ == failed(old(state).tracker@)
                &&& final(state).last_session_id == old(state).last_session_id
                &&& final(state).failure == Some(StorageOperation::Save)
                &&& final(state).pending_after_save is None
                &&& actions@.len() == 0
            }
        },
        event matches StorageEvent::SessionsListed { request_id, sessions } ==> {
            &&& actions@.len() == 0
            &&& old(state).list_request_id == Some(request_id) ==> {
                &&& final(state).sessions@ == sessions@
                &&& final(state).list_request_id is None
                &&& final(state).failure == cleared(old(state).failure, StorageOperation::List)
                &&& final(state).managed_sessions@ == old(state).managed_sessions@
                &&& final(state).manage_request_id == old(state).manage_request_id
                &&& final(state).manage_loading == old(state).manage_loading
            }
            &&& old(state).list_request_id != Some(request_id) && old(state).manage_request_id == Some(request_id) ==> {
                &&& final(state).managed_sessions@ == sessions@
                &&& final(state).manage_request_id is None
                &&& !final(state).manage_loading
                &&& final(state).failure == cleared(old(state).failure, StorageOperation::List)
                &&& final(state).sessions@ == old(state).sessions@
                &&& final(state).list_request_id == old(state).list_request_id
            }
            &&& same_working(*final(state), *old(state))
            &&& final(state).pending_after_save == old(state).pending_after_save
            &&& final(state).next_list_request_id == old(state).next_list_request_id
            &&& final(state).load_request_id == old(state).load_request_id
            &&& final(state).loading_session == old(state).loading_session
        },
        event matches StorageEvent::SessionLoaded { request_id, session } ==> old(state).load_request_id == request_id ==> {
            &&& !final(state).loading_session
            &&& final(state).failure == cleared(old(state).failure, StorageOperation::Load)
            &&& final(state).load_request_id == old(state).load_request_id
            &&& same_lists(*final(state), *old(state))
            &&& final(state).pending_after_save == old(state).pending_after_save
            &&& match session {
                Some(s) => {
                    &&& final(state).working_id == Some(s.metadata.id)
                    &&& final(state).tracker@ == fresh_tracker(true)
                    &&& final(state).last_session_id == Some(s.metadata.id)
                    &&& actions@ == seq![StorageAction::Restore(s), StorageAction::SaveSettings, StorageAction::RefreshLists]
                },
                None => {
                    &&& untitled_started(*final(state))
                    &&& actions@ == seq![StorageAction::StartUntitled, StorageAction::SaveSettings]
                },
            }
        },
        event matches StorageEvent::SessionDeleted { session_id, deleted } ==> {
            &&& !final(state).deleting_session
            &&& final(state).failure == cleared(old(state).failure, StorageOperation::Delete)
            &&& same_lists(*final(state), *old(state))
            &&& final(state).pending_after_save == old(state).pending_after_save
            &&& if deleted && old(state).working_id == Some(session_id) {
                &&& untitled_started(*final(state))
                &&& actions@ == seq![StorageAction::StartUntitled, StorageAction::SaveSettings, StorageAction::RefreshLists]
            } else {
                &&& same_working(*final(state), *old(state))
                &&& actions@ == seq![StorageAction::RefreshLists]
            }
        },
        event matches StorageEvent::AllDeleted ==> {
            &&& !final(state).deleting_all
            &&& final(state).failure == cleared(old(state).failure, StorageOperation::DeleteAll)
            &&& final(state).sessions@.len() == 0
            &&& final(state).managed_sessions@.len() == 0
            &&& final(state).pending_after_save == old(state).pending_after_save
            &&& if old(state).working_id is Some {
                &&& untitled_started(*final(state))
                &&& actions@ == seq![StorageAction::StartUntitled, StorageAction::SaveSettings]
            } else {
                &&& same_working(*final(state), *old(state))
                &&& actions@.len() == 0
            }
        },
        event matches StorageEvent::Failed(f) ==> {
            &&& final(state).failure == Some(f.operation)
            &&& same_lists(*final(state), *old(state))
            &&& final(state).working_id == old(state).working_id
            &&& final(state).last_session_id == old(state).last_session_id
            &&& actions@.len() == 0
            &&& match f.generation {
                Some(g) => {
                    &&& final(state).tracker@ == if old(state).tracker@.in_flight == Some(g.0) {
                        failed(old(state).tracker@)
                    } else {
                        old(state).tracker@
                    }
                    &&& final(state).pending_after_save is None
                    &&& final(state).initial_open_handled == old(state).initial_open_handled
                },
                None => {
                    &&& final(state).pending_after_save == old(state).pending_after_save
                    &&& if f.operation == StorageOperation::Open {
                        &&& final(state).initial_open_handled
                        &&& final(state).tracker@ == failed(old(state).tracker@)
                    } else {
                        &&& final(state).initial_open_handled == old(state).initial_open_handled
                        &&& final(state).tracker@ == old(state).tracker@
                    }
                },
            }
            &&& final(state).loading_session == (old(state).loading_session && f.operation != StorageOperation::Load)
            &&& final(state).deleting_session == (old(state).deleting_session && f.operation != StorageOperation::Delete)
            &&& final(state).deleting_all == (old(state).deleting_all && f.operation != StorageOperation::DeleteAll)
            &&& final(state).list_request_id == old(state).list_request_id
            &&& final(state).manage_request_id == old(state).manage_request_id
            &&& final(state).load_request_id == old(state).load_request_id
        },
{
    let mut actions: Vec<StorageAction> = Vec::new();
    match event {
        StorageEvent::Opened { sessions, selected } => {
            let first = !state.initial_open_handled;
            state.initial_open_handled = true;
            state.sessions = sessions;
            state.failure = clear_failure(state.failure, StorageOperation::Open);
            if first {
                match selected {
                    Some(s) => {
                        state.working_id = Some(s.metadata.id);
                        state.tracker.loaded(true);
                        actions.push(StorageAction::Restore(s));
                    },
                    None => {
                        state.tracker.loaded(false);
                        if state.last_session_id.is_some() {
                            state.last_session_id = None;
                            actions.push(StorageAction::SaveSettings);
                        }
                    },
                }
            } else {
                let saved = state.working_id.is_some();
                state.tracker.loaded(saved);
                if !saved && has_content {
                    let failure = state.failure;
                    if note_session_dirty(state) {
                        actions.push(StorageAction::ScheduleCheckpoint);
                    }
                    assert(state.failure == failure);
                }
            }
        },
        StorageEvent::Saved { generation, session_id } => {
            state.working_id = Some(session_id);
            match state.tracker.acknowledge(generation) {
                Err(_) => {
                    state.failure = Some(StorageOperation::Save);
                    state.tracker.set_failed();
                    state.pending_after_save = None;
                },
                Ok(()) => {
                    state.last_session_id = Some(session_id);
                    state.failure = clear_failure(
                        clear_failure(state.failure, StorageOperation::Save),
                        StorageOperation::ShutdownSave,
                    );
                    actions.push(StorageAction::SaveSettings);
                    actions.push(StorageAction::RefreshLists);
                    if state.tracker.is_dirty() {
                        if let Some(t) = state.pending_after_save {
                            actions.push(StorageAction::SaveThen(t));
                        }
                    } else if let Some(t) = state.pending_after_save {
                        state.pending_after_save = None;
                        actions.push(StorageAction::Cross(t));
                    }
                },
            }
        },
        StorageEvent::SessionsListed { request_id, sessions } => {
            if is_u64(state.list_request_id, request_id) {
                state.sessions = sessions;
                state.list_request_id = None;
                state.failure = clear_failure(state.failure, StorageOperation::List);
            } else if is_u64(state.manage_request_id, request_id) {
                state.managed_sessions = sessions;
                state.manage_request_id = None;
                state.manage_loading = false;
                state.failure = clear_failure(state.failure, StorageOperation::List);
            }
        },
        StorageEvent::SessionLoaded { request_id, session } => {
            if request_id == state.load_request_id {
                state.loading_session = false;
                state.failure = clear_failure(state.failure, StorageOperation::Load);
                match session {
                    Some(s) => {
                        let id = s.metadata.id;
                        state.working_id = Some(id);
                        state.tracker.loaded(true);
                        state.last_session_id = Some(id);
                        actions.push(StorageAction::Restore(s));
                        actions.push(StorageAction::SaveSettings);
                        actions.push(StorageAction::RefreshLists);
                    },
                    None => {
                        start_untitled(state);
                        actions.push(StorageAction::StartUntitled);
                        actions.push(StorageAction::SaveSettings);
                    },
                }
            }
        },
        StorageEvent::SessionDeleted { session_id, deleted } => {
            state.deleting_session = false;
            state.failure = clear_failure(state.failure, StorageOperation::Delete);
            if deleted && is_id(state.working_id, session_id) {
                start_untitled(state);
                actions.push(StorageAction::StartUntitled);
                actions.push(StorageAction::SaveSettings);
            }
            actions.push(StorageAction::RefreshLists);
        },
        StorageEvent::AllDeleted => {
            state.deleting_all = false;
            state.failure = clear_failure(state.failure, StorageOperation::DeleteAll);
            state.sessions = Vec::new();
            state.managed_sessions = Vec::new();
            if state.working_id.is_some() {
                start_untitled(state);
                actions.push(StorageAction::StartUntitled);
                actions.push(StorageAction::SaveSettings);
            }
        },
        StorageEvent::Failed(f) => {
            let operation = f.operation;
            state.failure = Some(operation);
            match f.generation {
                Some(g) => {
                    let _ = state.tracker.fail(g);
                    state.pending_after_save = None;
                },
                None => {
                    if operation == StorageOperation::Open {
                        state.initial_open_handled = true;
                        state.tracker.set_failed();
                    }
                },
            }
            if operation == StorageOperation::Load {
                state.loading_session = false;
            }
            if operation == StorageOperation::Delete {
                state.deleting_session = false;
            }
            if operation == StorageOperation::DeleteAll {
                state.deleting_all = false;
            }
        },
        StorageEvent::ShutdownComplete { .. } => {},
    }
    actions
}

fn is_u64(id: Option<u64>, other: u64) -> (r: bool)
    ensures
        r == (id == Some(other)),
{
    match id {
        Some(i) => i == other,
        None => false,
    }
}

/// What changing a storage setting asks of the application.
#[derive(Clone, Copy, Debug, PartialEq, Eq, Structural)]
pub enum AutosaveStep {
    /// The storage disclosure must be acknowledged first.
    NeedsDisclosure,
    /// Write the settings with autosave set to `enabled`. Once written, save at
    /// once when `save_now`, and clear the checkpoint when `clear_checkpoint`.
    WriteAutosave { enabled: bool, save_now: bool, clear_checkpoint: bool },
    /// Write the settings with the disclosure acknowledged.
    WriteDisclosure,
}

/// Turns autosave on or off. Turning it on needs the storage disclosure; once
/// on, a session with changes is saved at once. Turning it off drops the
/// scheduled checkpoint.
pub fn set_autosave(state: &mut StorageState, enabled: bool, has_content: bool) -> (r: AutosaveStep)
    requires
        old(state).wf(),
    ensures
        enabled && !old(state).disclosure_acknowledged ==> r == AutosaveStep::NeedsDisclosure
            && *final(state) == *old(state),
        !(enabled && !old(state).disclosure_acknowledged) ==> {
            &&& final(state).autosave == enabled
            &&& r == (AutosaveStep::WriteAutosave {
                enabled,
                save_now: enabled && working_dirty_spec(*old(state), has_content),
                clear_checkpoint: !enabled,
            })
            &&& final(state).disclosure_acknowledged == old(state).disclosure_acknowledged
            &&& same_requests(*final(state), *old(state))
            &&& same_lists(*final(state), *old(state))
            &&& same_working(*final(state), *old(state))
            &&& final(state).pending_after_save == old(state).pending_after_save
            &&& final(state).failure == old(state).failure
            &&& final(state).initial_open_handled == old(state).initial_open_handled
        },
{
    if enabled && !state.disclosure_acknowledged {
        return AutosaveStep::NeedsDisclosure;
    }
    let save_now = enabled && state.working_dirty(has_content);
    state.autosave = enabled;
    AutosaveStep::WriteAutosave { enabled, save_now, clear_checkpoint: !enabled }
}

/// Accepts the storage disclosure; the settings must then be written.
pub fn accept_disclosure(state: &mut StorageState) -> (r: AutosaveStep)
    ensures
        r == AutosaveStep::WriteDisclosure,
        final(state).disclosure_acknowledged,
        final(state).autosave == old(state).autosave,
        same_requests(*final(state), *old(state)),
        same_lists(*final(state), *old(state)),
        same_working(*final(state), *old(state)),
        final(state).pending_after_save == old(state).pending_after_save,
        final(state).failure == old(state).failure,
        final(state).initial_open_handled == old(state).initial_open_handled,
{
    state.disclosure_acknowledged = true;
    AutosaveStep::WriteDisclosure
}

/// The settings of `step` could not be written: its change is taken back.
pub fn settings_write_failed(state: &mut StorageState, step: AutosaveStep)
    ensures
        step matches AutosaveStep::WriteAutosave { enabled, .. } ==> final(state).autosave == !enabled
            && final(state).disclosure_acknowledged == old(state).disclosure_acknowledged,
        step == AutosaveStep::WriteDisclosure ==> !final(state).disclosure_acknowledged
            && final(state).autosave == old(state).autosave,
        step == AutosaveStep::NeedsDisclosure ==> final(state).autosave == old(state).autosave
            && final(state).disclosure_acknowledged == old(state).disclosure_acknowledged,
        same_requests(*final(state), *old(state)),
        same_lists(*final(state), *old(state)),
        same_working(*final(state), *old(state)),
        final(state).pending_after_save == old(state).pending_after_save,
        final(state).failure == old(state).failure,
        final(state).initial_open_handled == old(state).initial_open_handled,
{
    match step {
        AutosaveStep::WriteAutosave { enabled, .. } => {
            state.autosave = !enabled;
        },
        AutosaveStep::WriteDisclosure => {
            state.disclosure_acknowledged = false;
        },
        AutosaveStep::NeedsDisclosure => {},
    }
}

/// Asks to save the working session, then to cross `after` if given. The first
/// save needs the storage disclosure; a save in flight only takes over `after`;
/// a session with nothing to save crosses at once.
pub fn request_save(state: &mut StorageState, after: Option<BoundaryTarget>) -> (r: SaveStart)
    requires
        old(state).wf(),
    ensures
        final(state).wf(),
        same_requests(*final(state), *old(state)),
        same_settings(*final(state), *old(state)),
        same_lists(*final(state), *old(state)),
        final(state).working_id == old(state).working_id,
        final(state).last_session_id == old(state).last_session_id,
        final(state).initial_open_handled == old(state).initial_open_handled,
        !old(state).disclosure_acknowledged ==> r == SaveStart::NeedsDisclosure && *final(state) == *old(state),
        old(state).disclosure_acknowledged ==> save_started(*old(state), *final(state), after, r),
{
    if !state.disclosure_acknowledged {
        return SaveStart::NeedsDisclosure;
    }
    begin_save(state, after)
}

/// What starting a save does, once the disclosure is acknowledged.
pub open spec fn save_started(before: StorageState, after_state: StorageState, after: Option<BoundaryTarget>, r: SaveStart) -> bool {
    &&& before.tracker@.in_flight is Some ==> {
        &&& r == SaveStart::Deferred
        &&& after_state.tracker@ == before.tracker@
        &&& after_state.failure == before.failure
        &&& after_state.pending_after_save == if after is Some {
            after
        } else {
            before.pending_after_save
        }
    }
    &&& before.tracker@.in_flight is None ==> {
        &&& after_state.pending_after_save == before.pending_after_save
        &&& r != SaveStart::Deferred && r != SaveStart::NeedsDisclosure
        &&& r matches SaveStart::Save(g) ==> {
            &&& after_state.tracker@.in_flight == Some(g.0)
            &&& after_state.tracker@.status == StorageStatus::Saving
            &&& g.0 == after_state.tracker@.current
            &&& after_state.tracker@.saved == before.tracker@.saved
            &&& after_state.tracker@.current >= before.tracker@.current
            &&& after_state.failure == before.failure
        }
        &&& r matches SaveStart::Proceed(t) ==> t == after && after_state.failure == before.failure
            && after_state.tracker@.saved == before.tracker@.saved && after_state.tracker@.in_flight is None
        &&& r == SaveStart::Refused ==> after_state.failure == Some(StorageOperation::Save)
        &&& (before.tracker@.status != StorageStatus::Loading && before.tracker@.current < u64::MAX - 1
            && (dirty(before.tracker@) || (before.working_id is None && (before.tracker@.status
            == StorageStatus::Failed || before.tracker@.status == StorageStatus::Saved)))) ==> r is Save
    }
}

/// Starts a save of the working session, then to cross `after` if given.
pub fn begin_save(state: &mut StorageState, after: Option<BoundaryTarget>) -> (r: SaveStart)
    requires
        old(state).wf(),
    ensures
        final(state).wf(),
        same_requests(*final(state), *old(state)),
        same_settings(*final(state), *old(state)),
        same_lists(*final(state), *old(state)),
        final(state).working_id == old(state).working_id,
        final(state).last_session_id == old(state).last_session_id,
        final(state).initial_open_handled == old(state).initial_open_handled,
        save_started(*old(state), *final(state), after, r),
{
    if state.tracker.in_flight().is_some() {
        if after.is_some() {
            state.pending_after_save = after;
        }
        return SaveStart::Deferred;
    }
    match state.tracker.begin_session_save(state.working_id.is_some()) {
        Ok(Some(g)) => SaveStart::Save(g),
        Ok(None) => SaveStart::Proceed(after),
        Err(_) => {
            state.failure = Some(StorageOperation::Save);
            SaveStart::Refused
        },
    }
}

/// The save of `generation` was handed to the storage worker: `after` waits for it.
pub fn save_sent(state: &mut StorageState, after: Option<BoundaryTarget>)
    ensures
        final(state).pending_after_save == after,
        final(state).tracker@ == old(state).tracker@,
        final(state).failure == old(state).failure,
        same_requests(*final(state), *old(state)),
        same_settings(*final(state), *old(state)),
        same_lists(*final(state), *old(state)),
        same_working(*final(state), *old(state)),
        final(state).initial_open_handled == old(state).initial_open_handled,
{
    state.pending_after_save = after;
}

/// The save of `generation` could not start: its snapshot failed, or the
/// storage worker did not take it. The save failure is shown; a boundary that
/// waited for the save no longer does when the request was not sent.
pub fn save_not_sent(state: &mut StorageState, generation: DirtyGeneration, snapshot_failed: bool)
    requires
        old(state).wf(),
    ensures
        final(state).wf(),
        final(state).tracker@ == if old(state).tracker@.in_flight == Some(generation.0) {
            failed(old(state).tracker@)
        } else {
            old(state).tracker@
        },
        final(state).failure == Some(StorageOperation::Save),
        final(state).pending_after_save == if snapshot_failed {
            old(state).pending_after_save
        } else {
            None
        },
        same_requests(*final(state), *old(state)),
        same_settings(*final(state), *old(state)),
        same_lists(*final(state), *old(state)),
        final(state).working_id == old(state).working_id,
        final(state).last_session_id == old(state).last_session_id,
        final(state).initial_open_handled == old(state).initial_open_handled,
{
    let _ = state.tracker.fail(generation);
    state.failure = Some(StorageOperation::Save);
    if !snapshot_failed {
        state.pending_after_save = None;
    }
}

/// Asks for the session list; returns the request's ID, which its reply must carry.
pub fn request_session_list(state: &mut StorageState) -> (id: u64)
    ensures
        id == next_id(old(state).next_list_request_id),
        final(state).next_list_request_id == id,
        final(state).list_request_id == Some(id),
        final(state).manage_request_id == old(state).manage_request_id,
        final(state).manage_loading == old(state).manage_loading,
        final(state).load_request_id == old(state).load_request_id,
        final(state).loading_session == old(state).loading_session,
        final(state).deleting_session == old(state).deleting_session,
        final(state).deleting_all == old(state).deleting_all,
        final(state).failure == old(state).failure,
        final(state).pending_after_save == old(state).pending_after_save,
        same_settings(*final(state), *old(state)),
        same_lists(*final(state), *old(state)),
        same_working(*final(state), *old(state)),
{
    let id = bump(state.next_list_request_id);
    state.next_list_request_id = id;
    state.list_request_id = Some(id);
    id
}

/// Asks for the management list; returns the request's ID, which its reply must carry.
pub fn request_manage_session_list(state: &mut StorageState) -> (id: u64)
    ensures
        id == next_id(old(state).next_list_request_id),
        final(state).next_list_request_id == id,
        final(state).manage_request_id == Some(id),
        final(state).manage_loading,
        final(state).list_request_id == old(state).list_request_id,
        final(state).load_request_id == old(state).load_request_id,
        final(state).loading_session == old(state).loading_session,
        final(state).deleting_session == old(state).deleting_session,
        final(state).deleting_all == old(state).deleting_all,
        final(state).failure == old(state).failure,
        final(state).pending_after_save == old(state).pending_after_save,
        same_settings(*final(state), *old(state)),
        same_lists(*final(state), *old(state)),
        same_working(*final(state), *old(state)),
{
    let id = bump(state.next_list_request_id);
    state.next_list_request_id = id;
    state.manage_request_id = Some(id);
    state.manage_loading = true;
    id
}

/// A list request could not be sent: it is no longer awaited and the list failure is shown.
pub fn list_request_not_sent(state: &mut StorageState, manage: bool)
    ensures
        final(state).failure == Some(StorageOperation::List),
        manage ==> final(state).manage_request_id is None && !final(state).manage_loading
            && final(state).list_request_id == old(state).list_request_id,
        !manage ==> final(state).list_request_id is None && final(state).manage_request_id
            == old(state).manage_request_id && final(state).manage_loading == old(state).manage_loading,
        final(state).next_list_request_id == old(state).next_list_request_id,
        final(state).load_request_id == old(state).load_request_id,
        final(state).loading_session == old(state).loading_session,
        final(state).pending_after_save == old(state).pending_after_save,
        same_settings(*final(state), *old(state)),
        same_lists(*final(state), *old(state)),
        same_working(*final(state), *old(state)),
{
    if manage {
        state.manage_request_id = None;
        state.manage_loading = false;
    } else {
        state.list_request_id = None;
    }
    state.failure = Some(StorageOperation::List);
}

/// Crosses into a saved session: a load request whose reply must carry the returned ID.
/// Replies to earlier load requests are then stale.
pub fn begin_load(state: &mut StorageState) -> (id: u64)
    ensures
        id == next_id(old(state).load_request_id),
        final(state).load_request_id == id,
        final(state).loading_session,
        final(state).pending_after_save is None,
        final(state).list_request_id == old(state).list_request_id,
        final(state).manage_request_id == old(state).manage_request_id,
        final(state).failure == old(state).failure,
        same_settings(*final(state), *old(state)),
        same_lists(*final(state), *old(state)),
        same_working(*final(state), *old(state)),
{
    state.pending_after_save = None;
    let id = bump(state.load_request_id);
    state.load_request_id = id;
    state.loading_session = true;
    id
}

/// A load request could not be sent: storage counts as failed and the load failure is shown.
pub fn load_not_sent(state: &mut StorageState)
    requires
        old(state).wf(),
    ensures
        final(state).wf(),
        !final(state).loading_session,
        final(state).tracker@ == failed(old(state).tracker@),
        final(state).failure == Some(StorageOperation::Load),
        final(state).load_request_id == old(state).load_request_id,
        final(state).working_id == old(state).working_id,
        final(state).last_session_id == old(state).last_session_id,
        same_settings(*final(state), *old(state)),
        same_lists(*final(state), *old(state)),
{
    state.loading_session = false;
    state.tracker.set_failed();
    state.failure = Some(StorageOperation::Load);
}

} // verus!
