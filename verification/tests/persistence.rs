use evtap::persistence::{
    accept_disclosure, set_autosave, settings_write_failed, AutosaveStep,
    apply_storage_event, begin_load, begin_save, note_session_dirty, request_save,
    request_session_list, save_sent, BoundaryTarget, SaveStart, StorageAction, StorageState,
};
use evtap::session::{KeyboardContext, SessionId, SessionMetadata, StoredSession};
use evtap::storage::{StorageEvent, StorageFailure, StorageOperation, StorageStatus};

fn opened_state(disclosure: bool) -> StorageState {
    let mut state = StorageState::new(None, true, disclosure);
    let actions = apply_storage_event(
        &mut state,
        StorageEvent::Opened { sessions: Vec::new(), selected: None },
        false,
    );
    assert!(actions.is_empty());
    assert!(state.initial_open_handled);
    assert_eq!(state.tracker.status(), StorageStatus::Unsaved);
    state
}

#[test]
fn save_acknowledgement_crosses_the_waiting_boundary() {
    let mut state = opened_state(true);
    assert!(note_session_dirty(&mut state));
    let generation = match request_save(&mut state, Some(BoundaryTarget::Exit)) {
        SaveStart::Save(generation) => generation,
        other => panic!("expected a save, got {other:?}"),
    };
    save_sent(&mut state, Some(BoundaryTarget::Exit));
    let id = SessionId::new(5).unwrap();
    let actions = apply_storage_event(&mut state, StorageEvent::Saved { generation, session_id: id }, true);
    assert_eq!(actions.len(), 3);
    assert!(matches!(actions[0], StorageAction::SaveSettings));
    assert!(matches!(actions[1], StorageAction::RefreshLists));
    assert!(matches!(actions[2], StorageAction::Cross(BoundaryTarget::Exit)));
    assert_eq!(state.working_id, Some(id));
    assert_eq!(state.last_session_id, Some(id));
    assert_eq!(state.tracker.status(), StorageStatus::Saved);
    assert_eq!(state.pending_after_save, None);
}

#[test]
fn first_save_needs_the_disclosure() {
    let mut state = opened_state(false);
    assert_eq!(request_save(&mut state, None), SaveStart::NeedsDisclosure);
    assert_eq!(state.tracker.status(), StorageStatus::Unsaved);
}

#[test]
fn a_save_in_flight_defers_and_takes_over_the_boundary() {
    let mut state = opened_state(true);
    assert!(matches!(begin_save(&mut state, None), SaveStart::Save(_)));
    save_sent(&mut state, None);
    let target = BoundaryTarget::Load(SessionId::new(7).unwrap());
    assert_eq!(begin_save(&mut state, Some(target)), SaveStart::Deferred);
    assert_eq!(state.pending_after_save, Some(target));
    assert_eq!(begin_save(&mut state, None), SaveStart::Deferred);
    assert_eq!(state.pending_after_save, Some(target));
}

#[test]
fn stale_list_and_load_replies_change_nothing() {
    let mut state = opened_state(true);
    let current = request_session_list(&mut state);
    let actions = apply_storage_event(
        &mut state,
        StorageEvent::SessionsListed { request_id: current + 1, sessions: Vec::new() },
        false,
    );
    assert!(actions.is_empty());
    assert_eq!(state.list_request_id, Some(current));
    let load = begin_load(&mut state);
    let actions = apply_storage_event(
        &mut state,
        StorageEvent::SessionLoaded { request_id: load.wrapping_add(1), session: None },
        false,
    );
    assert!(actions.is_empty());
    assert!(state.loading_session);
}

#[test]
fn a_missing_loaded_session_starts_an_untitled_one() {
    let mut state = opened_state(true);
    let load = begin_load(&mut state);
    let actions = apply_storage_event(&mut state, StorageEvent::SessionLoaded { request_id: load, session: None }, false);
    assert_eq!(actions.len(), 2);
    assert!(matches!(actions[0], StorageAction::StartUntitled));
    assert!(matches!(actions[1], StorageAction::SaveSettings));
    assert!(!state.loading_session);
    assert_eq!(state.working_id, None);
}

#[test]
fn a_failed_save_forgets_the_waiting_boundary() {
    let mut state = opened_state(true);
    let generation = match begin_save(&mut state, Some(BoundaryTarget::New)) {
        SaveStart::Save(generation) => generation,
        other => panic!("expected a save, got {other:?}"),
    };
    save_sent(&mut state, Some(BoundaryTarget::New));
    let failure = StorageFailure {
        operation: StorageOperation::Save,
        generation: Some(generation),
        database_path: "/tmp/evtap.sqlite3".to_owned(),
        details: "disk full".to_owned(),
    };
    let actions = apply_storage_event(&mut state, StorageEvent::Failed(failure), false);
    assert!(actions.is_empty());
    assert_eq!(state.failure, Some(StorageOperation::Save));
    assert_eq!(state.tracker.status(), StorageStatus::Failed);
    assert_eq!(state.pending_after_save, None);
}

fn metadata(id: i64, name: &str) -> SessionMetadata {
    SessionMetadata {
        id: SessionId::new(id).unwrap(),
        name: Some(name.to_owned()),
        created_at_ms: 1,
        updated_at_ms: id,
        last_opened_at_ms: id,
        captured_duration_ns: 0,
        application_version: "0.2.0".to_owned(),
        keyboard: KeyboardContext::default(),
    }
}

fn stored(id: i64, name: &str) -> StoredSession {
    StoredSession { metadata: metadata(id, name), metrics: Vec::new() }
}

fn failure(operation: StorageOperation) -> StorageEvent {
    StorageEvent::Failed(StorageFailure {
        operation,
        generation: None,
        database_path: "/tmp/evtap.sqlite3".to_owned(),
        details: format!("injected {operation:?} failure"),
    })
}

#[test]
fn stale_list_and_load_responses_cannot_replace_newer_results() {
    let mut state = opened_state(true);
    state.list_request_id = Some(42);
    apply_storage_event(
        &mut state,
        StorageEvent::SessionsListed { request_id: 42, sessions: vec![metadata(42, "Newest list")] },
        false,
    );
    apply_storage_event(
        &mut state,
        StorageEvent::SessionsListed { request_id: 41, sessions: vec![metadata(41, "Stale list")] },
        false,
    );
    assert_eq!(state.list_request_id, None);
    assert_eq!(state.sessions.len(), 1);
    assert_eq!(state.sessions[0].name.as_deref(), Some("Newest list"));

    state.load_request_id = 52;
    state.loading_session = true;
    let actions = apply_storage_event(
        &mut state,
        StorageEvent::SessionLoaded { request_id: 52, session: Some(stored(52, "Newest load")) },
        false,
    );
    assert!(matches!(&actions[0], StorageAction::Restore(s) if s.metadata.name.as_deref() == Some("Newest load")));
    let stale = apply_storage_event(
        &mut state,
        StorageEvent::SessionLoaded { request_id: 51, session: Some(stored(51, "Stale load")) },
        false,
    );
    assert!(stale.is_empty());
    assert!(!state.loading_session);
    assert_eq!(state.working_id, SessionId::new(52));
}

#[test]
fn successful_storage_retries_clear_only_the_matching_failure() {
    let mut state = opened_state(true);
    let session_id = SessionId::new(77).unwrap();

    state.load_request_id = 7;
    state.loading_session = true;
    apply_storage_event(&mut state, failure(StorageOperation::Load), false);
    assert_eq!(state.failure, Some(StorageOperation::Load));
    apply_storage_event(&mut state, StorageEvent::SessionLoaded { request_id: 7, session: Some(stored(77, "Recovered session")) }, false);
    assert_eq!(state.failure, None);

    state.load_request_id = 8;
    apply_storage_event(&mut state, failure(StorageOperation::Load), false);
    apply_storage_event(&mut state, failure(StorageOperation::Delete), false);
    apply_storage_event(&mut state, StorageEvent::SessionLoaded { request_id: 8, session: Some(stored(77, "Recovered session")) }, false);
    assert_eq!(state.failure, Some(StorageOperation::Delete), "a success for an older operation must not clear a newer failure");
    apply_storage_event(&mut state, StorageEvent::SessionDeleted { session_id, deleted: false }, false);
    assert_eq!(state.failure, None);

    apply_storage_event(&mut state, failure(StorageOperation::DeleteAll), false);
    apply_storage_event(&mut state, StorageEvent::AllDeleted, false);
    assert_eq!(state.failure, None);

    state.load_request_id = 9;
    apply_storage_event(&mut state, failure(StorageOperation::Load), false);
    let actions = apply_storage_event(&mut state, StorageEvent::SessionLoaded { request_id: 9, session: None }, false);
    assert_eq!(state.failure, None);
    assert!(matches!(actions[0], StorageAction::StartUntitled));

    assert!(note_session_dirty(&mut state));
    let generation = match begin_save(&mut state, None) {
        SaveStart::Save(generation) => generation,
        other => panic!("expected a save, got {other:?}"),
    };
    apply_storage_event(&mut state, failure(StorageOperation::Delete), false);
    apply_storage_event(&mut state, StorageEvent::Saved { generation, session_id }, false);
    assert_eq!(state.failure, Some(StorageOperation::Delete), "a successful save must not clear an unrelated delete failure");
    apply_storage_event(&mut state, StorageEvent::Opened { sessions: Vec::new(), selected: None }, false);
    assert_eq!(state.failure, Some(StorageOperation::Delete), "a successful open must not clear an unrelated delete failure");
    apply_storage_event(&mut state, StorageEvent::SessionDeleted { session_id, deleted: false }, false);
    assert_eq!(state.failure, None);
}

#[test]
fn enabling_autosave_needs_the_disclosure_and_saves_a_dirty_session() {
    let mut state = StorageState::new(None, false, false);
    assert_eq!(set_autosave(&mut state, true, true), AutosaveStep::NeedsDisclosure);
    assert!(!state.autosave);
    let step = accept_disclosure(&mut state);
    assert_eq!(step, AutosaveStep::WriteDisclosure);
    settings_write_failed(&mut state, step);
    assert!(!state.disclosure_acknowledged, "a failed write takes the acknowledgement back");
    accept_disclosure(&mut state);
    let step = set_autosave(&mut state, true, true);
    assert_eq!(step, AutosaveStep::WriteAutosave { enabled: true, save_now: true, clear_checkpoint: false });
    assert!(state.autosave);
    settings_write_failed(&mut state, step);
    assert!(!state.autosave, "a failed write turns autosave off again");
    assert_eq!(
        set_autosave(&mut state, true, false),
        AutosaveStep::WriteAutosave { enabled: true, save_now: false, clear_checkpoint: false }
    );
    let step = set_autosave(&mut state, false, true);
    assert_eq!(step, AutosaveStep::WriteAutosave { enabled: false, save_now: false, clear_checkpoint: true });
    assert!(!state.autosave);
    settings_write_failed(&mut state, step);
    assert!(state.autosave);
}
