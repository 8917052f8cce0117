use evtap::storage::{
    boundary_policy, next_generation, storage_failure_message, storage_status_label,
    storage_status_label_for_operation, BoundaryPolicy, CheckpointSchedule, DirtyGeneration,
    DirtyTracker, DirtyTrackingError, StorageFailure, StorageOperation, StorageStatus,
};

const SECOND: u64 = 1_000_000_000;

#[test]
fn autosave_schedule_waits_thirty_seconds_without_postponing() {
    let start = 5 * SECOND;
    let mut schedule = CheckpointSchedule::new();
    schedule.note_dirty(start);
    schedule.note_dirty(start + 20 * SECOND);

    assert!(!schedule.is_due(start + 29 * SECOND));
    assert!(schedule.is_due(start + 30 * SECOND));
}

#[test]
fn checkpoint_schedule_reports_time_left_and_clears() {
    let mut schedule = CheckpointSchedule::new();
    assert_eq!(schedule.time_until_due(0), None);
    schedule.note_dirty(SECOND);
    assert_eq!(schedule.time_until_due(11 * SECOND), Some(20 * SECOND));
    assert_eq!(schedule.time_until_due(40 * SECOND), Some(0));
    schedule.save_started();
    assert!(!schedule.is_due(40 * SECOND));
    schedule.note_dirty(50 * SECOND);
    schedule.clear();
    assert_eq!(schedule.time_until_due(90 * SECOND), None);
}

#[test]
fn dirty_acknowledgement_does_not_save_newer_changes() {
    let mut tracker = DirtyTracker::new();
    tracker.loaded(true);
    let first = tracker.mark_dirty().unwrap();
    assert_eq!(tracker.begin_save().unwrap(), Some(first));
    tracker.mark_dirty().unwrap();
    tracker.acknowledge(first).unwrap();

    assert!(tracker.is_dirty());
    assert_eq!(tracker.saved_generation(), first);
}

#[test]
fn pristine_untitled_session_can_be_saved() {
    let mut tracker = DirtyTracker::new();
    let generation = tracker.begin_save().unwrap().unwrap();
    tracker.acknowledge(generation).unwrap();
    assert!(!tracker.is_dirty());
}

#[test]
fn clean_saved_session_needs_no_save() {
    let mut tracker = DirtyTracker::new();
    tracker.loaded(true);
    assert_eq!(tracker.status(), StorageStatus::Saved);
    assert_eq!(tracker.begin_save().unwrap(), None);
}

#[test]
fn failed_save_stays_dirty_and_unknown_generations_are_refused() {
    let mut tracker = DirtyTracker::new();
    tracker.loaded(true);
    let generation = tracker.mark_dirty().unwrap();
    assert_eq!(tracker.begin_save().unwrap(), Some(generation));
    assert_eq!(tracker.in_flight(), Some(generation));
    tracker.fail(generation).unwrap();
    assert!(tracker.is_dirty());
    assert_eq!(tracker.status(), StorageStatus::Failed);
    assert_eq!(tracker.in_flight(), None);
    assert!(tracker.acknowledge(DirtyGeneration(99)).is_err());
}

#[test]
fn generations_refuse_to_overflow() {
    assert_eq!(next_generation(DirtyGeneration(1)), Ok(DirtyGeneration(2)));
    assert_eq!(
        next_generation(DirtyGeneration(u64::MAX)),
        Err(DirtyTrackingError::GenerationOverflow)
    );
}

#[test]
fn dirty_boundaries_follow_editor_style_save_policy() {
    assert_eq!(boundary_policy(false, false), BoundaryPolicy::Proceed);
    assert_eq!(boundary_policy(false, true), BoundaryPolicy::Proceed);
    assert_eq!(boundary_policy(true, false), BoundaryPolicy::Prompt);
    assert_eq!(boundary_policy(true, true), BoundaryPolicy::Save);
}

#[test]
fn storage_labels_cover_unsaved_and_saved_sessions() {
    assert_eq!(storage_status_label(StorageStatus::Unsaved, false), "Not saved");
    assert_eq!(storage_status_label(StorageStatus::Saved, true), "Saved");
    assert_eq!(storage_status_label(StorageStatus::Dirty, true), "Unsaved changes");
    assert_eq!(storage_status_label(StorageStatus::Saving, true), "Saving…");
    assert_eq!(storage_status_label(StorageStatus::Failed, true), "Storage failed");
    assert_eq!(
        storage_status_label_for_operation(StorageStatus::Failed, true, Some(StorageOperation::Save)),
        "Save failed"
    );
    assert_eq!(
        storage_status_label_for_operation(StorageStatus::Failed, true, Some(StorageOperation::Load)),
        "Load failed"
    );
}

#[test]
fn storage_failure_messages_are_distinct() {
    assert_eq!(
        storage_failure_message(StorageOperation::Save),
        "The active session could not be saved. Unsaved changes remain in memory."
    );
    assert_eq!(
        storage_failure_message(StorageOperation::Load),
        "The selected session could not be loaded. The current session remains active."
    );
}

#[test]
fn event_types_do_not_need_database_paths_from_callers() {
    let failure = StorageFailure {
        operation: StorageOperation::Open,
        generation: None,
        database_path: String::new(),
        details: String::new(),
    };
    let _: Option<String> = None;
    assert_eq!(failure.operation, StorageOperation::Open);
}

#[test]
fn an_unnamed_session_is_saved_again_after_a_failed_save() {
    let mut tracker = DirtyTracker::new();
    tracker.loaded(false);
    let first = tracker.begin_session_save(false).unwrap().unwrap();
    assert_eq!(tracker.begin_session_save(false).unwrap(), None);
    tracker.fail(first).unwrap();
    let second = tracker.begin_session_save(false).unwrap().unwrap();
    assert!(second.0 > first.0);
    tracker.acknowledge(second).unwrap();
    assert!(!tracker.is_dirty());
    assert_eq!(tracker.begin_session_save(true).unwrap(), None);
    assert!(tracker.begin_session_save(false).unwrap().is_some());
}
