use evtap::database::validate_session_name;
use evtap::labels::format_local_timestamp;
use evtap::storage::{CheckpointSchedule, DirtyGeneration, DirtyTracker, DirtyTrackingError};

#[test]
fn acknowledgement_after_a_storage_failure_reports_no_save_in_flight() {
    let mut tracker = DirtyTracker::new();
    tracker.mark_dirty().unwrap();
    let generation = tracker.begin_save().unwrap().unwrap();
    tracker.set_failed();
    let expected = Err(DirtyTrackingError::UnexpectedAcknowledgement { expected: None, actual: generation });
    assert_eq!(tracker.acknowledge(generation), expected);
    assert_eq!(tracker.fail(generation), expected);
}

#[test]
fn acknowledging_another_generation_reports_the_one_in_flight() {
    let mut tracker = DirtyTracker::new();
    tracker.mark_dirty().unwrap();
    let generation = tracker.begin_save().unwrap().unwrap();
    let other = DirtyGeneration(generation.0 + 5);
    assert_eq!(
        tracker.acknowledge(other),
        Err(DirtyTrackingError::UnexpectedAcknowledgement { expected: Some(generation), actual: other })
    );
    assert_eq!(tracker.in_flight(), Some(generation));
}

#[test]
fn session_names_with_surrounding_unicode_space_are_refused() {
    assert!(validate_session_name(Some(" leading")).is_err());
    assert!(validate_session_name(Some("trailing\u{3000}")).is_err());
    assert!(validate_session_name(Some("\u{a0}nbsp")).is_err());
    assert!(validate_session_name(Some("inner space")).is_ok());
}

#[test]
fn a_checkpoint_is_due_exactly_when_no_time_is_left() {
    let mut schedule = CheckpointSchedule::new();
    assert_eq!(schedule.time_until_due(5), None);
    assert!(!schedule.is_due(5));
    schedule.note_dirty(10);
    assert_eq!(schedule.time_until_due(10), Some(30_000_000_000));
    assert!(!schedule.is_due(10));
    assert_eq!(schedule.time_until_due(30_000_000_010), Some(0));
    assert!(schedule.is_due(30_000_000_010));
    schedule.save_started();
    assert!(!schedule.is_due(u64::MAX));
    assert_eq!(schedule.time_until_due(u64::MAX), None);
}

#[test]
fn local_timestamps_have_the_date_time_offset_shape() {
    let text = format_local_timestamp(86_405_000);
    if !text.ends_with(" ms since Unix epoch") {
        let chars: Vec<char> = text.chars().collect();
        assert_eq!(chars.len(), 26, "{text}");
        assert!(chars[20] == '+' || chars[20] == '-', "{text}");
        assert_eq!(chars[4], '-');
        assert_eq!(chars[13], ':');
    }
}

#[test]
fn session_name_whitespace_matches_std_for_every_character() {
    for c in (0u32..=0x10ffff).filter_map(char::from_u32) {
        let name = format!("{c}x");
        assert_eq!(validate_session_name(Some(&name)).is_err(), c.is_whitespace(), "{:#x}", c as u32);
    }
}
