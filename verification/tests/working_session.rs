use evtap::capture::{key_label, key_role, produced_text, xkb_keycode};
use evtap::input::{KeyEventKind, KeyRole};
use evtap::listener::{event_kind, key_value, KeyValue, StopReason};
use evtap::session::{KeyboardContext, MetricRecoveryIssue, SessionId, SessionMetadata, StoredMetricSnapshot, StoredSession};
use evtap::working_session::{unix_ms, WorkingSession, APPLICATION_VERSION};

#[test]
fn saving_updates_modified_time_without_changing_open_time() {
    let session = WorkingSession::untitled(10, KeyboardContext::default());

    let snapshot = session.snapshot(20).unwrap();

    assert_eq!(snapshot.updated_at_ms, 20);
    assert_eq!(snapshot.last_opened_at_ms, 10);
}

#[test]
fn snapshots_record_the_application_version_and_metrics() {
    let session = WorkingSession::untitled(10, KeyboardContext::default());
    let snapshot = session.snapshot(20).unwrap();
    assert_eq!(snapshot.application_version, APPLICATION_VERSION);
    assert_eq!(snapshot.application_version, "0.2.0");
    assert_eq!(snapshot.created_at_ms, 10);
    assert_eq!(snapshot.captured_duration_ns, 0);
    assert_eq!(snapshot.metrics.len(), 6);
    assert!(snapshot.id.is_none());
}

#[test]
fn capture_time_out_of_the_storage_range_is_refused() {
    let session = WorkingSession::untitled(0, KeyboardContext::default());
    let error = session.snapshot_with(1, i64::MAX as u128 + 1).unwrap_err();
    assert_eq!(error, "Capture duration exceeds the storage range");
    assert_eq!(session.snapshot_with(1, 5).unwrap().captured_duration_ns, 5);
}

#[test]
fn untitled_sessions_have_a_display_name_and_no_content() {
    let mut session = WorkingSession::untitled(1, KeyboardContext::default());
    assert_eq!(session.display_name(), "Untitled session");
    assert!(!session.has_content());
    session.name = Some("Drills".to_owned());
    assert_eq!(session.display_name(), "Drills");
    assert!(session.has_content());
}

#[test]
fn capture_segments_add_up_and_reset_clears_them() {
    let mut session = WorkingSession::untitled(1, KeyboardContext::default());
    assert!(!session.finish_capture_segment());
    session.start_capture();
    assert!(session.has_content());
    assert!(session.finish_capture_segment());
    assert!(!session.finish_capture_segment());
    session.reset_statistics();
    assert_eq!(session.duration(), 0);
    assert!(!session.has_content());
}

#[test]
fn physical_keys_keep_their_first_label_until_cleared() {
    let mut session = WorkingSession::untitled(1, KeyboardContext::default());
    let first = session.physical_key(30, || "A".to_owned());
    let again = session.physical_key(30, || panic!("the label is remembered"));
    assert_eq!(first, again);
    assert_eq!(again.label(), "A");
    session.clear_in_flight();
    let fresh = session.physical_key(30, || "Other".to_owned());
    assert_eq!(fresh.label(), "Other");
}

#[test]
fn input_events_feed_the_metrics() {
    let mut session = WorkingSession::untitled(1, KeyboardContext::default());
    let event = session.input_event(30, "a".to_owned(), 5, KeyEventKind::Press);
    assert_eq!(event.key().label(), "A");
    assert_eq!(event.key().code(), 30);
    assert_eq!(event.text(), Some("a"));
    assert_eq!(event.role(), KeyRole::Other);
    session.process(&event);
    assert!(session.has_content());
    assert_eq!(session.metrics().total_presses().count(), 1);

    let backspace = session.input_event(14, String::new(), 6, KeyEventKind::Press);
    assert_eq!(backspace.text(), None);
    assert_eq!(backspace.role(), KeyRole::Backspace);
    assert_eq!(backspace.key().label(), "BACKSPACE");
}

#[test]
fn restored_sessions_keep_their_identity() {
    let stored = StoredSession {
        metadata: SessionMetadata {
            id: SessionId::new(9).unwrap(),
            name: Some("Saved".to_owned()),
            created_at_ms: 2,
            updated_at_ms: 3,
            last_opened_at_ms: 4,
            captured_duration_ns: -7,
            application_version: "0.1.0".to_owned(),
            keyboard: KeyboardContext::default(),
        },
        metrics: vec![StoredMetricSnapshot {
            metric_id: "total-presses".to_owned(),
            schema_version: 1,
            payload_json: r#"{"count":3}"#.to_owned(),
        }],
    };
    let (session, issues) = WorkingSession::restore(stored);
    assert!(issues.is_empty());
    assert!(session.restored);
    assert_eq!(session.id.map(SessionId::get), Some(9));
    assert_eq!(session.display_name(), "Saved");
    assert_eq!(session.duration(), 0);
    assert_eq!(session.metrics().total_presses().count(), 3);
}

#[test]
fn key_labels_drop_the_evdev_prefix() {
    assert_eq!(key_label(30), "A");
    assert_eq!(key_label(57), "SPACE");
    assert_eq!(key_label(0x2ff), "unknown key: 767");
    assert_eq!(key_role(14), KeyRole::Backspace);
    assert_eq!(key_role(30), KeyRole::Other);
    assert_eq!(xkb_keycode(30), 38);
    assert_eq!(produced_text(String::new()), None);
    assert_eq!(produced_text("x".to_owned()), Some("x".to_owned()));
}

#[test]
fn listener_values_and_stop_reasons() {
    assert_eq!(key_value(0), Some(KeyValue::Up));
    assert_eq!(key_value(1), Some(KeyValue::Down));
    assert_eq!(key_value(2), Some(KeyValue::Repeat));
    assert_eq!(key_value(3), None);
    assert_eq!(event_kind(KeyValue::Down), KeyEventKind::Press);
    assert_eq!(event_kind(KeyValue::Up), KeyEventKind::Release);
    assert!(!StopReason::Requested.is_error());
    assert_eq!(StopReason::Requested.describe(), "stopped");
    let failed = StopReason::OpenFailed("No such device".to_owned());
    assert!(failed.is_error());
    assert_eq!(failed.describe(), "failed to open keyboard: No such device");
    assert_eq!(
        StopReason::EventStreamFailed("busy".to_owned()).describe(),
        "failed to start keyboard event stream: busy"
    );
    assert_eq!(StopReason::ReadFailed("gone".to_owned()).describe(), "keyboard read failed: gone");
}

#[test]
fn wall_clock_milliseconds_must_fit_storage() {
    assert_eq!(unix_ms(Some(5)), Ok(5));
    assert_eq!(unix_ms(None), Err("system clock precedes the Unix epoch".to_owned()));
    assert_eq!(
        unix_ms(Some(i64::MAX as u128 + 1)),
        Err("system time exceeds the storage range".to_owned())
    );
}

#[test]
fn snapshots_carry_the_name_keyboard_and_every_metric() {
    let keyboard = KeyboardContext {
        display_name: Some("Desk".to_owned()),
        model: "pc105".to_owned(),
        layout: "de".to_owned(),
        variant: String::new(),
    };
    let mut session = WorkingSession::untitled(3, keyboard);
    session.name = Some("Morning".to_owned());
    let snapshot = session.snapshot(20).unwrap();
    assert_eq!(snapshot.name.as_deref(), Some("Morning"));
    assert_eq!(snapshot.keyboard.layout, "de");
    assert_eq!(snapshot.keyboard.display_name.as_deref(), Some("Desk"));
    assert_eq!(snapshot.application_version, APPLICATION_VERSION);
    let ids: Vec<&str> = snapshot.metrics.iter().map(|m| m.metric_id()).collect();
    assert_eq!(ids, ["total-presses", "key-usage", "dwell-time", "flight-time", "bigram-speed", "corrections"]);
}

#[test]
fn invalid_stored_metrics_report_their_error() {
    let stored = StoredSession {
        metadata: SessionMetadata {
            id: SessionId::new(4).unwrap(),
            name: None,
            created_at_ms: 1,
            updated_at_ms: 2,
            last_opened_at_ms: 3,
            captured_duration_ns: 0,
            application_version: APPLICATION_VERSION.to_owned(),
            keyboard: KeyboardContext::default(),
        },
        metrics: vec![
            StoredMetricSnapshot { metric_id: "total-presses".to_owned(), schema_version: 0, payload_json: "{}".to_owned() },
            StoredMetricSnapshot { metric_id: "key-usage".to_owned(), schema_version: 1, payload_json: "nope".to_owned() },
        ],
    };
    let (_, issues) = WorkingSession::restore(stored);
    let details: Vec<String> = issues
        .iter()
        .map(|issue| match issue {
            MetricRecoveryIssue::Invalid { details, .. } => details.clone(),
            other => panic!("unexpected issue {other:?}"),
        })
        .collect();
    assert_eq!(
        details,
        ["stored metric schema version 0 is invalid", "failed to decode metric key-usage snapshot schema version 1"]
    );
}
